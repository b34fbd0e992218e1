//! Syntax tree of the `GGB` language and its parser.
//!
//! Every node keeps the tokens it was parsed from; the `*_toks` spec
//! functions give them back in source order. The parser is sound with
//! respect to them: a parsed node's tokens are exactly the tokens it consumed.
//!
//! # Statements
//! - `S := !!` (panic)
//! - `S := mod <ident> { S* }`
//! - `S := struct <ident> { [F] }` and `S := union <ident> { [F] }`
//! - `S := asm { }`
//! - `S := static [@ E] <field> ;`
//! - `S := const <field> = E ;`
//! - `S := let <field> = E [;]`
//! - `S := for <field> in E .. [=] [+] E { S* }`
//! - `S := loop { S* }`
//! - `S := fn <ident> [( F )] [T] { S* }`
//! - `S := { S* }` (scope)
//! - `S := if E { S* } [else { S* }]`
//! - `S := break [;]` and `S := continue [;]`
//! - `S := E ;`
//!
//! # Fields
//! - `<field> := <ident> (: | ::) T`
//! - `F := <ident> (, <ident>)* (: | ::) T (, <ident> (, <ident>)* (: | ::) T)*`
//!
//! # Types
//! - `T := u8 | i8 | u16 | i16`
//! - `T := [ T [;] E ]` (array), `T := & T` (pointer)
//! - `T := struct { [F] } | union { [F] }`
//! - `T := <ident> (:: <ident>)*` (path)
//!
//! # Expressions
//! Infix operators, loosest first: assignments (`= += -= *= /= &= |= ^=`,
//! right associative), comparisons (`== ~= < > <= >=`), `|`, `^`, `&`,
//! shifts (`<< >>`), `+ -`, `* /`; prefix operators `- @ * ~`; postfix calls
//! `E ( E, ... )` and indexing `E [ E ]`; atoms are literals, paths,
//! arrays `[ E* ]`, parenthesized `( E )` and prefix (lisp) binary
//! expressions `( <op> E E )`.
use crate::error::Error;
use crate::lex::{eof_terminated, lemma_tokens_determined, lexes, same_token, tokenize, tokenize_error, Token, TokenKind};
use crate::span::{loc_max, loc_min, union, Span};
use vstd::prelude::*;
use vstd::string::StringSliceAdditionalSpecFns;

verus! {

/// `<head> (:: <tail>)*`
#[derive(Debug)]
pub struct Path<'a> {
    /// Head identifier token.
    pub head: Token<'a>,
    /// Rest of the tokens: `::` and identifier.
    pub tail: Vec<(Token<'a>, Token<'a>)>,
}

/// `<head> (<separator> <item>)*`
#[derive(Debug)]
pub struct Separated<T, S> {
    pub head: T,
    pub tail: Vec<(S, T)>,
}

/// Data types.
#[derive(Debug)]
pub enum Type<'a> {
    /// `u8`
    U8(Token<'a>),
    /// `i8`
    I8(Token<'a>),
    /// `u16`
    U16(Token<'a>),
    /// `i16`
    I16(Token<'a>),
    /// `[ T [;] E ]`
    Array(Box<ArrayType<'a>>),
    /// `struct { [F] }`
    Struct(Box<Record<'a>>),
    /// `union { [F] }`
    Union(Box<Record<'a>>),
    /// `& T`
    Pointer(Box<PointerType<'a>>),
    /// Named type.
    Path(Path<'a>),
}

/// `[ <type> [;] <length> ]`
#[derive(Debug)]
pub struct ArrayType<'a> {
    pub left_square: Token<'a>,
    pub type_: Type<'a>,
    pub semi_colon: Option<Token<'a>>,
    pub len: Expression<'a>,
    pub right_square: Token<'a>,
}

/// `& <type>`
#[derive(Debug)]
pub struct PointerType<'a> {
    pub ampersand: Token<'a>,
    pub type_: Type<'a>,
}

/// `(struct | union) [<ident>] { [<field groups>] }`
#[derive(Debug)]
pub struct Record<'a> {
    pub keyword: Token<'a>,
    pub ident: Option<Token<'a>>,
    pub left_bracket: Token<'a>,
    pub fields: Option<Separated<FieldGroup<'a>, Token<'a>>>,
    pub right_bracket: Token<'a>,
}

/// `<ident> (, <ident>)* (: | ::) <type>`
#[derive(Debug)]
pub struct FieldGroup<'a> {
    pub idents: Separated<Token<'a>, Token<'a>>,
    pub square: Token<'a>,
    pub type_: Type<'a>,
}

/// `<ident> (: | ::) <type>`
#[derive(Debug)]
pub struct Field<'a> {
    pub ident: Token<'a>,
    pub square: Token<'a>,
    pub type_: Type<'a>,
}

/// Expressions.
#[derive(Debug)]
pub enum Expression<'a> {
    /// Path to a symbol.
    Path(Path<'a>),
    /// Literal.
    Lit(Token<'a>),
    /// `[ E* ]`
    Array(Box<Array<'a>>),
    /// `<op> E` with `<op>` one of `- @ * ~`.
    Unary(Box<Unary<'a>>),
    /// `E <op> E`
    Binary(Box<Binary<'a>>),
    /// `( <op> E E )`
    Lisp(Box<LispNode<'a>>),
    /// `( E )`
    Parenthesis(Box<Parenthesis<'a>>),
    /// `E ( [E (, E)*] )`
    Call(Box<Call<'a>>),
    /// `E [ E ]`
    Index(Box<Index<'a>>),
}

/// `[ E* ]`
#[derive(Debug)]
pub struct Array<'a> {
    pub left_square: Token<'a>,
    pub inner: Vec<Expression<'a>>,
    pub right_square: Token<'a>,
}

/// `<op> E`
#[derive(Debug)]
pub struct Unary<'a> {
    pub op: Token<'a>,
    pub inner: Expression<'a>,
}

/// `E <op> E`
#[derive(Debug)]
pub struct Binary<'a> {
    pub left: Expression<'a>,
    pub op: Token<'a>,
    pub right: Expression<'a>,
}

/// `( <op> E E )`
#[derive(Debug)]
pub struct LispNode<'a> {
    pub left_par: Token<'a>,
    pub op: Token<'a>,
    pub left: Expression<'a>,
    pub right: Expression<'a>,
    pub right_par: Token<'a>,
}

/// `( E )`
#[derive(Debug)]
pub struct Parenthesis<'a> {
    pub left_par: Token<'a>,
    pub inner: Expression<'a>,
    pub right_par: Token<'a>,
}

/// `E ( [E (, E)*] )`
#[derive(Debug)]
pub struct Call<'a> {
    pub left: Expression<'a>,
    pub left_par: Token<'a>,
    pub args: Option<Separated<Expression<'a>, Token<'a>>>,
    pub right_par: Token<'a>,
}

/// `E [ E ]`
#[derive(Debug)]
pub struct Index<'a> {
    pub left: Expression<'a>,
    pub left_square: Token<'a>,
    pub index: Expression<'a>,
    pub right_square: Token<'a>,
}

/// Module identifier.
#[derive(Debug)]
pub struct ModIdent<'a>(pub Token<'a>);

/// Statements.
#[derive(Debug)]
pub enum Statement<'a> {
    /// `!!`
    Panic(Token<'a>),
    /// `mod <ident> { S* }`
    Mod(Box<Module<'a>>),
    /// `struct <ident> { [F] }`
    Struct(Box<Record<'a>>),
    /// `union <ident> { [F] }`
    Union(Box<Record<'a>>),
    /// `asm { }`
    Asm(Box<Asm<'a>>),
    /// `static [@ E] <field> ;`
    Static(Box<Static<'a>>),
    /// `const <field> = E ;`
    Const(Box<Const<'a>>),
    /// `let <field> = E [;]`
    Let(Box<Let<'a>>),
    /// `for <field> in <range> { S* }`
    For(Box<For<'a>>),
    /// `loop { S* }`
    Loop(Box<Loop<'a>>),
    /// `fn <ident> [( F )] [T] { S* }`
    Fn(Box<Function<'a>>),
    /// `{ S* }`
    Scope(Box<Scope<'a>>),
    /// `if E { S* }`
    If(Box<If<'a>>),
    /// `if E { S* } else { S* }`
    IfElse(Box<IfElse<'a>>),
    /// `break [;]`
    Break(Jump<'a>),
    /// `continue [;]`
    Continue(Jump<'a>),
    /// `E ;`
    Inline(Box<Inline<'a>>),
}

/// `mod <ident> { S* }`
#[derive(Debug)]
pub struct Module<'a> {
    pub mod_: Token<'a>,
    pub ident: ModIdent<'a>,
    pub left_bracket: Token<'a>,
    pub inner: Vec<Statement<'a>>,
    pub right_bracket: Token<'a>,
}

/// `asm { }`
#[derive(Debug)]
pub struct Asm<'a> {
    pub keyword: Token<'a>,
    pub left_bracket: Token<'a>,
    pub right_bracket: Token<'a>,
}

/// `@ E`
#[derive(Debug)]
pub struct StaticOffset<'a> {
    pub at: Token<'a>,
    pub expression: Expression<'a>,
}

/// `static [@ E] <field> ;`
#[derive(Debug)]
pub struct Static<'a> {
    pub static_: Token<'a>,
    pub offset: Option<StaticOffset<'a>>,
    pub field: Field<'a>,
    pub semi_colon: Token<'a>,
}

/// `const <field> = E ;`
#[derive(Debug)]
pub struct Const<'a> {
    pub const_: Token<'a>,
    pub field: Field<'a>,
    pub assign: Token<'a>,
    pub expression: Expression<'a>,
    pub semi_colon: Token<'a>,
}

/// `let <field> = E [;]`
#[derive(Debug)]
pub struct Let<'a> {
    pub let_: Token<'a>,
    pub field: Field<'a>,
    pub assign: Token<'a>,
    pub expression: Expression<'a>,
    pub semi_colon: Option<Token<'a>>,
}

/// `E .. [=] [+] E`
#[derive(Debug)]
pub struct Range<'a> {
    pub left: Expression<'a>,
    pub dot_dot: Token<'a>,
    pub eq: Option<Token<'a>>,
    pub plus: Option<Token<'a>>,
    pub right: Expression<'a>,
}

/// `for <field> in <range> { S* }`
#[derive(Debug)]
pub struct For<'a> {
    pub for_: Token<'a>,
    pub field: Field<'a>,
    pub in_: Token<'a>,
    pub range: Range<'a>,
    pub left_bracket: Token<'a>,
    pub inner: Vec<Statement<'a>>,
    pub right_bracket: Token<'a>,
}

/// `loop { S* }`
#[derive(Debug)]
pub struct Loop<'a> {
    pub loop_: Token<'a>,
    pub left_bracket: Token<'a>,
    pub inner: Vec<Statement<'a>>,
    pub right_bracket: Token<'a>,
}

/// `( F )`
#[derive(Debug)]
pub struct FnArgs<'a> {
    pub left_par: Token<'a>,
    pub args: Separated<FieldGroup<'a>, Token<'a>>,
    pub right_par: Token<'a>,
}

/// `fn <ident> [( F )] [T] { S* }`
#[derive(Debug)]
pub struct Function<'a> {
    pub fn_: Token<'a>,
    pub ident: Token<'a>,
    pub fn_args: Option<FnArgs<'a>>,
    pub type_: Option<Type<'a>>,
    pub left_bracket: Token<'a>,
    pub inner: Vec<Statement<'a>>,
    pub right_bracket: Token<'a>,
}

/// `{ S* }`
#[derive(Debug)]
pub struct Scope<'a> {
    pub left_bracket: Token<'a>,
    pub inner: Vec<Statement<'a>>,
    pub right_bracket: Token<'a>,
}

/// `if E { S* }`
#[derive(Debug)]
pub struct If<'a> {
    pub if_: Token<'a>,
    pub expression: Expression<'a>,
    pub left_bracket: Token<'a>,
    pub inner: Vec<Statement<'a>>,
    pub right_bracket: Token<'a>,
}

/// `else { S* }`
#[derive(Debug)]
pub struct Else<'a> {
    pub else_: Token<'a>,
    pub left_bracket: Token<'a>,
    pub inner: Vec<Statement<'a>>,
    pub right_bracket: Token<'a>,
}

/// `if E { S* } else { S* }`
#[derive(Debug)]
pub struct IfElse<'a> {
    pub if_: If<'a>,
    pub else_: Else<'a>,
}

/// `break [;]` or `continue [;]`
#[derive(Debug)]
pub struct Jump<'a> {
    pub keyword: Token<'a>,
    pub semi_colon: Option<Token<'a>>,
}

/// `E ;`
#[derive(Debug)]
pub struct Inline<'a> {
    pub inner: Expression<'a>,
    pub semi_colon: Token<'a>,
}

/// `(S)* <eof>`
#[derive(Debug)]
pub struct Ast<'a> {
    pub inner: Vec<Statement<'a>>,
    pub eof: Token<'a>,
}

// token sequences of syntax trees

/// Tokens of an optional token.
pub open spec fn opt_toks<'a>(t: Option<Token<'a>>) -> Seq<Token<'a>> {
    match t {
        Some(t) => seq![t],
        None => seq![],
    }
}

/// Tokens of `(separator, token)` pairs.
pub open spec fn pairs_toks<'a>(v: Seq<(Token<'a>, Token<'a>)>) -> Seq<Token<'a>>
    decreases v.len(),
{
    if v.len() == 0 {
        seq![]
    } else {
        pairs_toks(v.drop_last()) + seq![v.last().0, v.last().1]
    }
}

/// Tokens of a path.
pub open spec fn path_toks<'a>(p: Path<'a>) -> Seq<Token<'a>> {
    seq![p.head] + pairs_toks(p.tail@)
}

/// Tokens of a list of tokens separated by tokens.
pub open spec fn sep_tokens_toks<'a>(s: Separated<Token<'a>, Token<'a>>) -> Seq<Token<'a>> {
    seq![s.head] + pairs_toks(s.tail@)
}

/// Tokens of an expression.
pub open spec fn expr_toks<'a>(e: Expression<'a>) -> Seq<Token<'a>>
    decreases e,
{
    match e {
        Expression::Path(p) => path_toks(p),
        Expression::Lit(t) => seq![t],
        Expression::Array(a) => seq![a.left_square] + exprs_toks(a.inner@) + seq![a.right_square],
        Expression::Unary(u) => seq![u.op] + expr_toks(u.inner),
        Expression::Binary(b) => expr_toks(b.left) + seq![b.op] + expr_toks(b.right),
        Expression::Lisp(l) => seq![l.left_par, l.op] + expr_toks(l.left) + expr_toks(l.right)
            + seq![l.right_par],
        Expression::Parenthesis(p) => seq![p.left_par] + expr_toks(p.inner) + seq![p.right_par],
        Expression::Call(c) => expr_toks(c.left) + seq![c.left_par] + match c.args {
            Some(a) => expr_toks(a.head) + sep_exprs_toks(a.tail@),
            None => seq![],
        } + seq![c.right_par],
        Expression::Index(i) => expr_toks(i.left) + seq![i.left_square] + expr_toks(i.index)
            + seq![i.right_square],
    }
}

/// Tokens of a list of expressions.
pub open spec fn exprs_toks<'a>(v: Seq<Expression<'a>>) -> Seq<Token<'a>>
    decreases v,
{
    if v.len() == 0 {
        seq![]
    } else {
        exprs_toks(v.drop_last()) + expr_toks(v.last())
    }
}

/// Tokens of `(separator, expression)` pairs.
pub open spec fn sep_exprs_toks<'a>(v: Seq<(Token<'a>, Expression<'a>)>) -> Seq<Token<'a>>
    decreases v,
{
    if v.len() == 0 {
        seq![]
    } else {
        sep_exprs_toks(v.drop_last()) + seq![v.last().0] + expr_toks(v.last().1)
    }
}


// parsing

/// A token sequence as produced by the tokenizer: it ends with the end of
/// file token.
pub open spec fn well_terminated<'a>(t: Seq<Token<'a>>) -> bool {
    t.len() > 0 && t.last().kind == TokenKind::Eof
}

/// `node` holds exactly the tokens from `pos` (included) to `end` (excluded),
/// and the end of file token is not among them.
pub open spec fn parsed<'a>(t: Seq<Token<'a>>, pos: int, end: int, node: Seq<Token<'a>>) -> bool {
    pos < end < t.len() && node == t.subrange(pos, end)
}

/// `e` reports early end of input, or a token at or after `pos`.
pub open spec fn error_from<'a>(t: Seq<Token<'a>>, pos: int, e: Error<'a>) -> bool {
    e == Error::<'a>::Eof || exists|k: int| pos <= k < t.len() && e == Error::UnexpectedToken(#[trigger] t[k])
}

proof fn lemma_cat<'a>(t: Seq<Token<'a>>, a: int, b: int, c: int)
    requires
        0 <= a <= b <= c <= t.len(),
    ensures
        t.subrange(a, b) + t.subrange(b, c) == t.subrange(a, c),
        b < c ==> t.subrange(b, b + 1) == seq![t[b]],
{
    assert(t.subrange(a, b) + t.subrange(b, c) =~= t.subrange(a, c));
    if b < c {
        assert(t.subrange(b, b + 1) =~= seq![t[b]]);
    }
}

proof fn lemma_error_from<'a>(t: Seq<Token<'a>>, pos: int, pos2: int, e: Error<'a>)
    requires
        pos <= pos2,
        error_from(t, pos2, e),
    ensures
        error_from(t, pos, e),
{
    if e != Error::<'a>::Eof {
        let k = choose|k: int| pos2 <= k < t.len() && e == Error::UnexpectedToken(#[trigger] t[k]);
        assert(e == Error::UnexpectedToken(t[k]));
    }
}

/// Kind of the token at `pos`.
fn peek<'a>(tokens: &Vec<Token<'a>>, pos: usize) -> (k: TokenKind)
    requires
        pos < tokens@.len(),
    ensures
        k == tokens@[pos as int].kind,
{
    tokens[pos].kind
}

/// The token at `pos`, which must be of the given kind.
fn expect<'a>(tokens: &Vec<Token<'a>>, pos: usize, kind: TokenKind) -> (r: Result<
    (Token<'a>, usize),
    Error<'a>,
>)
    requires
        well_terminated(tokens@),
        pos < tokens@.len(),
        kind != TokenKind::Eof,
    ensures
        r matches Ok((t, end)) ==> t == tokens@[pos as int] && t.kind == kind && end == pos + 1
            && parsed(tokens@, pos as int, end as int, seq![t]),
        r is Ok <==> tokens@[pos as int].kind == kind,
        r matches Err(e) ==> e == Error::UnexpectedToken(tokens@[pos as int]),
{
    let t = tokens[pos];
    let len = tokens.len();
    if t.kind == kind {
        assert(pos + 1 < len);
        proof {
            lemma_cat(tokens@, pos as int, pos as int, pos + 1);
        }
        Ok((t, pos + 1))
    } else {
        Err(Error::UnexpectedToken(t))
    }
}

/// The token at `pos`, if it is of the given kind.
fn accept<'a>(tokens: &Vec<Token<'a>>, pos: usize, kind: TokenKind) -> (r: (Option<Token<'a>>, usize))
    requires
        well_terminated(tokens@),
        pos < tokens@.len(),
        kind != TokenKind::Eof,
    ensures
        tokens@[pos as int].kind == kind ==> r.0 == Some(tokens@[pos as int]) && r.1 == pos + 1,
        tokens@[pos as int].kind != kind ==> r.0 is None && r.1 == pos,
        r.1 < tokens@.len(),
        opt_toks(r.0) == tokens@.subrange(pos as int, r.1 as int),
{
    let len = tokens.len();
    if tokens[pos].kind == kind {
        assert(pos + 1 < len);
        proof {
            lemma_cat(tokens@, pos as int, pos as int, pos + 1);
        }
        (Some(tokens[pos]), pos + 1)
    } else {
        assert(tokens@.subrange(pos as int, pos as int) =~= Seq::<Token<'a>>::empty());
        (None, pos)
    }
}

/// Kinds of a token sequence: all that decides how it parses.
pub open spec fn kinds<'a>(t: Seq<Token<'a>>) -> Seq<TokenKind> {
    Seq::new(t.len(), |i: int| t[i].kind)
}

/// A path of identifiers separated by `::`.
pub open spec fn path_shape<'a>(p: Path<'a>) -> bool {
    &&& p.head.kind == TokenKind::Ident
    &&& forall|i: int|
        0 <= i < p.tail@.len() ==> (#[trigger] p.tail@[i]).0.kind == TokenKind::Square && p.tail@[i].1.kind
            == TokenKind::Ident
}

/// The tokens at `p` continue a path: `::` followed by an identifier.
pub open spec fn path_continues(t: Seq<TokenKind>, p: int) -> bool {
    p + 1 < t.len() && t[p] == TokenKind::Square && t[p + 1] == TokenKind::Ident
}

/// Where a path ends that has reached `p`: it takes `:: <ident>` as long as
/// they follow.
pub open spec fn path_rest(t: Seq<TokenKind>, p: int) -> int
    decreases t.len() - p,
{
    if 0 <= p && path_continues(t, p) {
        path_rest(t, p + 2)
    } else {
        p
    }
}

/// `<ident> (:: <ident>)*`: the longest path that starts at `pos`, which
/// exists exactly where an identifier stands there.
pub fn parse_path<'a>(tokens: &Vec<Token<'a>>, pos: usize) -> (r: Result<(Path<'a>, usize), Error<'a>>)
    requires
        well_terminated(tokens@),
        pos < tokens@.len(),
    ensures
        r matches Ok((p, end)) ==> parsed(tokens@, pos as int, end as int, path_toks(p)) && path_shape(p)
            && !path_continues(kinds(tokens@), end as int) && end == path_rest(kinds(tokens@), pos + 1),
        r is Ok <==> tokens@[pos as int].kind == TokenKind::Ident,
        r matches Err(e) ==> e == Error::UnexpectedToken(tokens@[pos as int]) && error_from(
            tokens@,
            pos as int,
            e,
        ),
{
    let (head, mut p) = match expect(tokens, pos, TokenKind::Ident) {
        Ok(x) => x,
        Err(e) => {
            assert(tokens@[pos as int] == tokens@[pos as int]);
            return Err(e);
        },
    };
    let mut tail: Vec<(Token<'a>, Token<'a>)> = Vec::new();
    let len = tokens.len();
    while tokens[p].kind == TokenKind::Square && tokens[p + 1].kind == TokenKind::Ident
        invariant
            len == tokens@.len(),
            well_terminated(tokens@),
            pos < p < tokens@.len(),
            seq![head] + pairs_toks(tail@) == tokens@.subrange(pos as int, p as int),
            head.kind == TokenKind::Ident,
            forall|i: int|
                0 <= i < tail@.len() ==> (#[trigger] tail@[i]).0.kind == TokenKind::Square && tail@[i].1.kind
                    == TokenKind::Ident,
            path_rest(kinds(tokens@), p as int) == path_rest(kinds(tokens@), pos + 1),
        decreases tokens@.len() - p,
    {
        let sq = tokens[p];
        let id = tokens[p + 1];
        let ghost old_tail = tail@;
        tail.push((sq, id));
        assert(tail@.drop_last() == old_tail);
        assert(tail@[tail@.len() - 1] == (sq, id));
        proof {
            lemma_cat(tokens@, pos as int, p as int, p + 2);
            assert(tokens@.subrange(p as int, p + 2) =~= seq![sq, id]);
        }
        p = p + 2;
    }
    Ok((Path { head, tail }, p))
}


/// Assignment operators.
pub open spec fn is_assign_op(k: TokenKind) -> bool {
    k == TokenKind::Assign || k == TokenKind::PlusAssign || k == TokenKind::MinusAssign || k
        == TokenKind::StarAssign || k == TokenKind::SlashAssign || k == TokenKind::AmpersandAssign
        || k == TokenKind::PipeAssign || k == TokenKind::CaretAssign
}

/// Precedence level of the other binary operators (1 binds loosest); 0 for
/// any other token.
pub open spec fn op_level(k: TokenKind) -> int {
    match k {
        TokenKind::Eq | TokenKind::TildeEq | TokenKind::Less | TokenKind::Greater
        | TokenKind::LessEq | TokenKind::GreaterEq => 1,
        TokenKind::Pipe => 2,
        TokenKind::Caret => 3,
        TokenKind::Ampersand => 4,
        TokenKind::LessLess | TokenKind::GreatGreat => 5,
        TokenKind::Plus | TokenKind::Minus => 6,
        TokenKind::Star | TokenKind::Slash => 7,
        _ => 0,
    }
}

/// Prefix operators.
pub open spec fn is_prefix_op(k: TokenKind) -> bool {
    k == TokenKind::Minus || k == TokenKind::At || k == TokenKind::Star || k == TokenKind::Tilde
}

/// How loosely an expression binds: 0 for an assignment, the level of its
/// operator for another binary expression, 8 for a prefix operator, 9 for
/// the others.
pub open spec fn expr_rank<'a>(e: Expression<'a>) -> int {
    match e {
        Expression::Binary(b) => if is_assign_op(b.op.kind) {
            0
        } else {
            op_level(b.op.kind)
        },
        Expression::Unary(_) => 8,
        _ => 9,
    }
}

/// The tree follows the precedence of the operators: assignments are right
/// associative and bind loosest, the other binary operators are left
/// associative and bind tighter the higher their level, prefix operators
/// bind tighter still, and calls and indexing tightest. Literals, paths and
/// brackets are tokens of their kinds.
pub open spec fn precedence_ok<'a>(e: Expression<'a>) -> bool
    decreases e,
{
    match e {
        Expression::Binary(b) => precedence_ok(b.left) && precedence_ok(b.right) && if is_assign_op(b.op.kind) {
            expr_rank(b.left) >= 1
        } else {
            op_level(b.op.kind) >= 1 && expr_rank(b.left) >= op_level(b.op.kind) && expr_rank(b.right) > op_level(
                b.op.kind,
            )
        },
        Expression::Unary(u) => is_prefix_op(u.op.kind) && expr_rank(u.inner) >= 8 && precedence_ok(u.inner),
        Expression::Call(c) => c.left_par.kind == TokenKind::LeftPar && c.right_par.kind == TokenKind::RightPar
            && expr_rank(c.left) == 9 && precedence_ok(c.left) && match c.args {
            Some(a) => precedence_ok(a.head) && sep_exprs_ok(a.tail@),
            None => true,
        },
        Expression::Index(i) => i.left_square.kind == TokenKind::LeftSquare && i.right_square.kind
            == TokenKind::RightSquare && expr_rank(i.left) == 9 && precedence_ok(i.left) && precedence_ok(i.index),
        Expression::Parenthesis(p) => p.left_par.kind == TokenKind::LeftPar && p.right_par.kind == TokenKind::RightPar
            && precedence_ok(p.inner),
        Expression::Lisp(l) => l.left_par.kind == TokenKind::LeftPar && l.right_par.kind == TokenKind::RightPar && (
        is_assign_op(l.op.kind) || op_level(l.op.kind) > 0) && precedence_ok(l.left) && precedence_ok(l.right),
        Expression::Array(a) => a.left_square.kind == TokenKind::LeftSquare && a.right_square.kind
            == TokenKind::RightSquare && exprs_ok(a.inner@),
        Expression::Path(p) => path_shape(p),
        Expression::Lit(t) => t.kind == TokenKind::Lit,
    }
}

/// Tier of a binary operator in the language's precedence, tightest
/// first: `*` and `/` (7), `+` and `-` (6), `<<` and `>>` (5), `&` (4), `^`
/// (3), `|` (2), and the comparisons `== ~= < > <= >=` (1); 0 for any other
/// token.
pub open spec fn precedence_tier(k: TokenKind) -> int {
    if k == TokenKind::Star || k == TokenKind::Slash {
        7
    } else if k == TokenKind::Plus || k == TokenKind::Minus {
        6
    } else if k == TokenKind::LessLess || k == TokenKind::GreatGreat {
        5
    } else if k == TokenKind::Ampersand {
        4
    } else if k == TokenKind::Caret {
        3
    } else if k == TokenKind::Pipe {
        2
    } else if k == TokenKind::Eq || k == TokenKind::TildeEq || k == TokenKind::Less || k == TokenKind::Greater
        || k == TokenKind::LessEq || k == TokenKind::GreaterEq {
        1
    } else {
        0
    }
}

/// In a tree that follows the precedence of the operators (as every parsed
/// expression does), an operator binds its operands before any looser one:
/// an operand written without parentheses under a binary operator is never
/// an assignment nor an operation of a looser tier (so `a + b * c` is `a + (b
/// * c)`, never `(a + b) * c`), and its right operand is not even of the same
/// tier (so `a - b - c` is `(a - b) - c`); only assignments are right
/// associative and take any operand but an assignment on their left.
pub proof fn lemma_operator_precedence<'a>(e: Expression<'a>)
    requires
        precedence_ok(e),
    ensures
        (match e {
            Expression::Binary(b) => if is_assign_op(b.op.kind) {
                !(b.left matches Expression::Binary(l) && is_assign_op(l.op.kind))
            } else {
                &&& precedence_tier(b.op.kind) >= 1
                &&& (b.left matches Expression::Binary(l) ==> !is_assign_op(l.op.kind) && precedence_tier(
                    l.op.kind,
                ) >= precedence_tier(b.op.kind))
                &&& (b.right matches Expression::Binary(r) ==> !is_assign_op(r.op.kind) && precedence_tier(
                    r.op.kind,
                ) > precedence_tier(b.op.kind))
            },
            Expression::Unary(u) => !(u.inner is Binary),
            _ => true,
        }),
{
}

/// Every expression of the list follows the precedence of the operators.
pub open spec fn exprs_ok<'a>(v: Seq<Expression<'a>>) -> bool
    decreases v,
{
    v.len() == 0 || (exprs_ok(v.drop_last()) && precedence_ok(v.last()))
}

/// Every expression of the `(separator, expression)` pairs follows the
/// precedence of the operators.
pub open spec fn sep_exprs_ok<'a>(v: Seq<(Token<'a>, Expression<'a>)>) -> bool
    decreases v,
{
    v.len() == 0 || (sep_exprs_ok(v.drop_last()) && precedence_ok(v.last().1))
}

fn assign_op(k: TokenKind) -> (r: bool)
    ensures
        r == is_assign_op(k),
{
    match k {
        TokenKind::Assign | TokenKind::PlusAssign | TokenKind::MinusAssign | TokenKind::StarAssign
        | TokenKind::SlashAssign | TokenKind::AmpersandAssign | TokenKind::PipeAssign
        | TokenKind::CaretAssign => true,
        _ => false,
    }
}

fn level_of(k: TokenKind) -> (r: u8)
    ensures
        r == op_level(k),
{
    match k {
        TokenKind::Eq | TokenKind::TildeEq | TokenKind::Less | TokenKind::Greater
        | TokenKind::LessEq | TokenKind::GreaterEq => 1,
        TokenKind::Pipe => 2,
        TokenKind::Caret => 3,
        TokenKind::Ampersand => 4,
        TokenKind::LessLess | TokenKind::GreatGreat => 5,
        TokenKind::Plus | TokenKind::Minus => 6,
        TokenKind::Star | TokenKind::Slash => 7,
        _ => 0,
    }
}

fn prefix_op(k: TokenKind) -> (r: bool)
    ensures
        r == is_prefix_op(k),
{
    match k {
        TokenKind::Minus | TokenKind::At | TokenKind::Star | TokenKind::Tilde => true,
        _ => false,
    }
}

/// A parse that ends at the position that `s` gives, and fails where `s` is
/// `None`.
pub open spec fn ends_at<'a, T>(r: Result<(T, usize), Error<'a>>, s: Option<int>) -> bool {
    match r {
        Ok((_, end)) => s == Some(end as int),
        Err(_) => s is None,
    }
}

/// Where the expression that starts at `pos` ends; `None` where none does.
/// This is the grammar of expressions: binary operators by level (see
/// [`op_level`]) over prefix operators over calls and indexing over
/// primary expressions, with assignments, right associative, loosest.
pub open spec fn expr_end(t: Seq<TokenKind>, pos: int) -> Option<int>
    decreases t.len() - pos, 50int,
{
    if !(0 <= pos < t.len()) {
        None
    } else {
        match binary_end(t, pos, 1) {
            Some(p) => if pos < p < t.len() && is_assign_op(t[p]) {
                expr_end(t, p + 1)
            } else {
                Some(p)
            },
            None => None,
        }
    }
}

/// Where the operators of `level` and tighter, from `pos`, end.
pub open spec fn binary_end(t: Seq<TokenKind>, pos: int, level: int) -> Option<int>
    decreases t.len() - pos, 40 - level,
{
    if !(0 <= pos < t.len() && 1 <= level <= 7) {
        None
    } else {
        let first = if level < 7 {
            binary_end(t, pos, level + 1)
        } else {
            unary_end(t, pos)
        };
        match first {
            Some(p) => if pos < p < t.len() {
                binary_rest(t, p, level)
            } else {
                None
            },
            None => None,
        }
    }
}

/// Where a left operand that has reached `p` ends, with the operators of
/// `level` that follow it.
pub open spec fn binary_rest(t: Seq<TokenKind>, p: int, level: int) -> Option<int>
    decreases t.len() - p, 0int,
{
    if !(0 <= p < t.len() && 1 <= level <= 7) {
        None
    } else if op_level(t[p]) == level && p + 1 < t.len() {
        let next = if level < 7 {
            binary_end(t, p + 1, level + 1)
        } else {
            unary_end(t, p + 1)
        };
        match next {
            Some(q) => if p + 1 < q < t.len() {
                binary_rest(t, q, level)
            } else {
                None
            },
            None => None,
        }
    } else {
        Some(p)
    }
}

/// Where prefix operators and the expression they apply to end.
pub open spec fn unary_end(t: Seq<TokenKind>, pos: int) -> Option<int>
    decreases t.len() - pos, 20int,
{
    if !(0 <= pos < t.len()) {
        None
    } else if is_prefix_op(t[pos]) {
        if pos + 1 < t.len() {
            unary_end(t, pos + 1)
        } else {
            None
        }
    } else {
        postfix_end(t, pos)
    }
}

/// Where a primary expression and the calls and indexing after it end.
pub open spec fn postfix_end(t: Seq<TokenKind>, pos: int) -> Option<int>
    decreases t.len() - pos, 15int,
{
    if !(0 <= pos < t.len()) {
        None
    } else {
        match primary_end(t, pos) {
            Some(p) => if pos < p < t.len() {
                postfix_rest(t, p)
            } else {
                None
            },
            None => None,
        }
    }
}

/// Where the calls `( [A] )` and indexing `[ E ]` from `p` end.
pub open spec fn postfix_rest(t: Seq<TokenKind>, p: int) -> Option<int>
    decreases t.len() - p, 0int,
{
    if !(0 <= p < t.len()) {
        None
    } else if t[p] == TokenKind::LeftPar && p + 1 < t.len() {
        let args = if t[p + 1] == TokenKind::RightPar {
            Some(p + 1)
        } else {
            args_end(t, p + 1)
        };
        match args {
            Some(q) => if p < q < t.len() && t[q] == TokenKind::RightPar && q + 1 < t.len() {
                postfix_rest(t, q + 1)
            } else {
                None
            },
            None => None,
        }
    } else if t[p] == TokenKind::LeftSquare && p + 1 < t.len() {
        match expr_end(t, p + 1) {
            Some(q) => if p + 1 < q < t.len() && t[q] == TokenKind::RightSquare && q + 1 < t.len() {
                postfix_rest(t, q + 1)
            } else {
                None
            },
            None => None,
        }
    } else {
        Some(p)
    }
}

/// Where comma separated call arguments from `pos` end.
pub open spec fn args_end(t: Seq<TokenKind>, pos: int) -> Option<int>
    decreases t.len() - pos, 55int,
{
    if !(0 <= pos < t.len()) {
        None
    } else {
        match expr_end(t, pos) {
            Some(p) => if pos < p < t.len() {
                args_rest(t, p)
            } else {
                None
            },
            None => None,
        }
    }
}

/// Where the arguments `, E` from `p` end.
pub open spec fn args_rest(t: Seq<TokenKind>, p: int) -> Option<int>
    decreases t.len() - p, 0int,
{
    if !(0 <= p < t.len()) {
        None
    } else if t[p] == TokenKind::Comma && p + 1 < t.len() {
        match expr_end(t, p + 1) {
            Some(q) => if p + 1 < q < t.len() {
                args_rest(t, q)
            } else {
                None
            },
            None => None,
        }
    } else {
        Some(p)
    }
}

/// Where the elements of an array from `p`, and its closing `]`, end.
pub open spec fn array_rest(t: Seq<TokenKind>, p: int) -> Option<int>
    decreases t.len() - p, 60int,
{
    if !(0 <= p < t.len()) {
        None
    } else if t[p] == TokenKind::RightSquare {
        if p + 1 < t.len() {
            Some(p + 1)
        } else {
            None
        }
    } else {
        match expr_end(t, p) {
            Some(q) => if p < q < t.len() {
                array_rest(t, q)
            } else {
                None
            },
            None => None,
        }
    }
}

/// Where an expression closed by `)` at its end, from `pos`, ends.
pub open spec fn closed_end(t: Seq<TokenKind>, pos: int, e: Option<int>) -> Option<int> {
    match e {
        Some(q) => if pos < q < t.len() && t[q] == TokenKind::RightPar && q + 1 < t.len() {
            Some(q + 1)
        } else {
            None
        },
        None => None,
    }
}

/// Where a literal, a path, an array `[ E* ]`, a parenthesized expression
/// `( E )` or a prefix expression `( op E E )` from `pos` ends.
pub open spec fn primary_end(t: Seq<TokenKind>, pos: int) -> Option<int>
    decreases t.len() - pos, 10int,
{
    if !(0 <= pos && pos + 1 < t.len()) {
        None
    } else if t[pos] == TokenKind::Lit {
        Some(pos + 1)
    } else if t[pos] == TokenKind::Ident {
        Some(path_rest(t, pos + 1))
    } else if t[pos] == TokenKind::LeftSquare {
        array_rest(t, pos + 1)
    } else if t[pos] == TokenKind::LeftPar {
        if is_assign_op(t[pos + 1]) || op_level(t[pos + 1]) > 0 {
            if pos + 2 < t.len() {
                match expr_end(t, pos + 2) {
                    Some(p) => if pos + 2 < p < t.len() {
                        closed_end(t, p, expr_end(t, p))
                    } else {
                        None
                    },
                    None => None,
                }
            } else {
                None
            }
        } else {
            closed_end(t, pos + 1, expr_end(t, pos + 1))
        }
    } else {
        None
    }
}

/// A call or an index would continue the expression before this token.
pub open spec fn postfix_continues(k: TokenKind) -> bool {
    k == TokenKind::LeftPar || k == TokenKind::LeftSquare
}

/// No operator, call or index continues an expression before this token.
pub open spec fn expression_stops(k: TokenKind) -> bool {
    !postfix_continues(k) && op_level(k) == 0 && !is_assign_op(k)
}

/// Expression, starting with the loosest (assignment) operators: the longest
/// one that starts at `pos`, so that no operator, call or index follows it.
pub fn parse_expression<'a>(tokens: &Vec<Token<'a>>, pos: usize) -> (r: Result<
    (Expression<'a>, usize),
    Error<'a>,
>)
    requires
        well_terminated(tokens@),
        pos < tokens@.len(),
    ensures
        ends_at(r, expr_end(kinds(tokens@), pos as int)),
        r matches Ok((e, end)) ==> parsed(tokens@, pos as int, end as int, expr_toks(e)) && precedence_ok(e),
        r matches Ok((_, end)) ==> expression_stops(tokens@[end as int].kind),
        r matches Err(e) ==> error_from(tokens@, pos as int, e),
    decreases tokens@.len() - pos, 50int,
{
    let (left, p) = match parse_binary(tokens, pos, 1) {
        Ok(x) => x,
        Err(e) => return Err(e),
    };
    if assign_op(peek(tokens, p)) {
        let op = tokens[p];
        let len = tokens.len();
        assert(p + 1 < len);
        let (right, end) = match parse_expression(tokens, p + 1) {
            Ok(x) => x,
            Err(e) => {
                proof {
                    lemma_error_from(tokens@, pos as int, p + 1, e);
                }
                return Err(e);
            },
        };
        let e = Expression::Binary(Box::new(Binary { left, op, right }));
        proof {
            lemma_cat(tokens@, pos as int, p as int, p + 1);
            lemma_cat(tokens@, pos as int, p + 1, end as int);
            assert(expr_toks(e) =~= tokens@.subrange(pos as int, end as int));
        }
        Ok((e, end))
    } else {
        Ok((left, p))
    }
}

/// Left associative binary operators of precedence `level` or tighter.
#[verifier::spinoff_prover]
fn parse_binary<'a>(tokens: &Vec<Token<'a>>, pos: usize, level: u8) -> (r: Result<
    (Expression<'a>, usize),
    Error<'a>,
>)
    requires
        well_terminated(tokens@),
        pos < tokens@.len(),
        1 <= level <= 7,
    ensures
        ends_at(r, binary_end(kinds(tokens@), pos as int, level as int)),
        r matches Ok((e, end)) ==> parsed(tokens@, pos as int, end as int, expr_toks(e)) && precedence_ok(e) && expr_rank(e)
            >= level,
        r matches Ok((_, end)) ==> !postfix_continues(tokens@[end as int].kind) && op_level(
            tokens@[end as int].kind,
        ) < level,
        r matches Err(e) ==> error_from(tokens@, pos as int, e),
    decreases tokens@.len() - pos, 40 - level,
{
    let first = if level < 7 {
        parse_binary(tokens, pos, level + 1)
    } else {
        parse_unary(tokens, pos)
    };
    let (mut left, mut p) = match first {
        Ok(x) => x,
        Err(e) => return Err(e),
    };
    let len = tokens.len();
    while level_of(peek(tokens, p)) == level
        invariant
            well_terminated(tokens@),
            len == tokens@.len(),
            1 <= level <= 7,
            parsed(tokens@, pos as int, p as int, expr_toks(left)),
            precedence_ok(left),
            expr_rank(left) >= level,
            !postfix_continues(tokens@[p as int].kind),
            op_level(tokens@[p as int].kind) <= level,
            pos < p,
            binary_rest(kinds(tokens@), p as int, level as int) == binary_end(kinds(tokens@), pos as int, level as int),
        decreases tokens@.len() - p,
    {
        let op = tokens[p];
        assert(p + 1 < len);
        let next = if level < 7 {
            parse_binary(tokens, p + 1, level + 1)
        } else {
            parse_unary(tokens, p + 1)
        };
        let (right, end) = match next {
            Ok(x) => x,
            Err(e) => {
                proof {
                    lemma_error_from(tokens@, pos as int, p + 1, e);
                }
                return Err(e);
            },
        };
        proof {
            lemma_cat(tokens@, pos as int, p as int, p + 1);
            lemma_cat(tokens@, pos as int, p + 1, end as int);
        }
        left = Expression::Binary(Box::new(Binary { left, op, right }));
        assert(expr_toks(left) =~= tokens@.subrange(pos as int, end as int));
        p = end;
    }
    Ok((left, p))
}

/// Prefix operators, then postfix expressions.
fn parse_unary<'a>(tokens: &Vec<Token<'a>>, pos: usize) -> (r: Result<
    (Expression<'a>, usize),
    Error<'a>,
>)
    requires
        well_terminated(tokens@),
        pos < tokens@.len(),
    ensures
        ends_at(r, unary_end(kinds(tokens@), pos as int)),
        r matches Ok((e, end)) ==> parsed(tokens@, pos as int, end as int, expr_toks(e)) && precedence_ok(e) && expr_rank(e)
            >= 8,
        r matches Ok((_, end)) ==> !postfix_continues(tokens@[end as int].kind),
        r matches Err(e) ==> error_from(tokens@, pos as int, e),
    decreases tokens@.len() - pos, 20int,
{
    if prefix_op(peek(tokens, pos)) {
        let op = tokens[pos];
        let len = tokens.len();
        assert(pos + 1 < len);
        let (inner, end) = match parse_unary(tokens, pos + 1) {
            Ok(x) => x,
            Err(e) => {
                proof {
                    lemma_error_from(tokens@, pos as int, pos + 1, e);
                }
                return Err(e);
            },
        };
        let e = Expression::Unary(Box::new(Unary { op, inner }));
        proof {
            lemma_cat(tokens@, pos as int, pos + 1, end as int);
            assert(expr_toks(e) =~= tokens@.subrange(pos as int, end as int));
        }
        Ok((e, end))
    } else {
        parse_postfix(tokens, pos)
    }
}

/// Comma separated call arguments, up to (excluded) the closing `)`.
fn parse_args<'a>(tokens: &Vec<Token<'a>>, pos: usize) -> (r: Result<
    (Separated<Expression<'a>, Token<'a>>, usize),
    Error<'a>,
>)
    requires
        well_terminated(tokens@),
        pos < tokens@.len(),
    ensures
        ends_at(r, args_end(kinds(tokens@), pos as int)),
        r matches Ok((a, end)) ==> parsed(
            tokens@,
            pos as int,
            end as int,
            expr_toks(a.head) + sep_exprs_toks(a.tail@),
        ) && precedence_ok(a.head) && sep_exprs_ok(a.tail@),
        r matches Err(e) ==> error_from(tokens@, pos as int, e),
    decreases tokens@.len() - pos, 55int,
{
    let (head, mut p) = match parse_expression(tokens, pos) {
        Ok(x) => x,
        Err(e) => return Err(e),
    };
    let mut tail: Vec<(Token<'a>, Expression<'a>)> = Vec::new();
    let len = tokens.len();
    while tokens[p].kind == TokenKind::Comma
        invariant
            well_terminated(tokens@),
            len == tokens@.len(),
            parsed(tokens@, pos as int, p as int, expr_toks(head) + sep_exprs_toks(tail@)),
            precedence_ok(head),
            sep_exprs_ok(tail@),
            args_rest(kinds(tokens@), p as int) == args_end(kinds(tokens@), pos as int),
        decreases tokens@.len() - p,
    {
        let comma = tokens[p];
        assert(p + 1 < len);
        let (e, end) = match parse_expression(tokens, p + 1) {
            Ok(x) => x,
            Err(e) => {
                proof {
                    lemma_error_from(tokens@, pos as int, p + 1, e);
                }
                return Err(e);
            },
        };
        let ghost old_tail = tail@;
        tail.push((comma, e));
        proof {
            assert(tail@.drop_last() == old_tail);
            lemma_cat(tokens@, pos as int, p as int, p + 1);
            lemma_cat(tokens@, pos as int, p + 1, end as int);
            assert(expr_toks(head) + sep_exprs_toks(tail@) =~= tokens@.subrange(pos as int, end as int));
        }
        p = end;
    }
    Ok((Separated { head, tail }, p))
}

/// Primary expression followed by calls and indexing.
#[verifier::spinoff_prover]
fn parse_postfix<'a>(tokens: &Vec<Token<'a>>, pos: usize) -> (r: Result<
    (Expression<'a>, usize),
    Error<'a>,
>)
    requires
        well_terminated(tokens@),
        pos < tokens@.len(),
    ensures
        ends_at(r, postfix_end(kinds(tokens@), pos as int)),
        r matches Ok((e, end)) ==> parsed(tokens@, pos as int, end as int, expr_toks(e)) && precedence_ok(e) && expr_rank(e)
            == 9,
        r matches Ok((_, end)) ==> !postfix_continues(tokens@[end as int].kind),
        r matches Err(e) ==> error_from(tokens@, pos as int, e),
    decreases tokens@.len() - pos, 15int,
{
    let (mut left, mut p) = match parse_primary(tokens, pos) {
        Ok(x) => x,
        Err(e) => return Err(e),
    };
    let len = tokens.len();
    while tokens[p].kind == TokenKind::LeftPar || tokens[p].kind == TokenKind::LeftSquare
        invariant
            well_terminated(tokens@),
            len == tokens@.len(),
            parsed(tokens@, pos as int, p as int, expr_toks(left)),
            precedence_ok(left),
            expr_rank(left) == 9,
            postfix_rest(kinds(tokens@), p as int) == postfix_end(kinds(tokens@), pos as int),
        decreases tokens@.len() - p,
    {
        let open = tokens[p];
        assert(p + 1 < len);
        if open.kind == TokenKind::LeftPar {
            let (args, q) = if tokens[p + 1].kind == TokenKind::RightPar {
                assert(tokens@.subrange(p + 1, p + 1) =~= Seq::<Token<'a>>::empty());
                (None, p + 1)
            } else {
                match parse_args(tokens, p + 1) {
                    Ok((a, q)) => (Some(a), q),
                    Err(e) => {
                        proof {
                            lemma_error_from(tokens@, pos as int, p + 1, e);
                        }
                        return Err(e);
                    },
                }
            };
            let (close, end) = match expect(tokens, q, TokenKind::RightPar) {
                Ok(x) => x,
                Err(e) => {
                    assert(e == Error::UnexpectedToken(tokens@[q as int]));
                    return Err(e);
                },
            };
            proof {
                lemma_cat(tokens@, pos as int, p as int, p + 1);
                lemma_cat(tokens@, pos as int, p + 1, q as int);
                lemma_cat(tokens@, pos as int, q as int, end as int);
            }
            left = Expression::Call(Box::new(Call { left, left_par: open, args, right_par: close }));
            assert(expr_toks(left) =~= tokens@.subrange(pos as int, end as int));
            p = end;
        } else {
            let (index, q) = match parse_expression(tokens, p + 1) {
                Ok(x) => x,
                Err(e) => {
                    proof {
                        lemma_error_from(tokens@, pos as int, p + 1, e);
                    }
                    return Err(e);
                },
            };
            let (close, end) = match expect(tokens, q, TokenKind::RightSquare) {
                Ok(x) => x,
                Err(e) => {
                    assert(e == Error::UnexpectedToken(tokens@[q as int]));
                    return Err(e);
                },
            };
            proof {
                lemma_cat(tokens@, pos as int, p as int, p + 1);
                lemma_cat(tokens@, pos as int, p + 1, q as int);
                lemma_cat(tokens@, pos as int, q as int, end as int);
            }
            left = Expression::Index(
                Box::new(Index { left, left_square: open, index, right_square: close }),
            );
            assert(expr_toks(left) =~= tokens@.subrange(pos as int, end as int));
            p = end;
        }
    }
    Ok((left, p))
}

/// Literals, paths, arrays, parenthesized and prefix (lisp) expressions.
#[verifier::rlimit(50)]
#[verifier::spinoff_prover]
fn parse_primary<'a>(tokens: &Vec<Token<'a>>, pos: usize) -> (r: Result<
    (Expression<'a>, usize),
    Error<'a>,
>)
    requires
        well_terminated(tokens@),
        pos < tokens@.len(),
    ensures
        ends_at(r, primary_end(kinds(tokens@), pos as int)),
        r matches Ok((e, end)) ==> parsed(tokens@, pos as int, end as int, expr_toks(e)) && precedence_ok(e) && expr_rank(e)
            == 9,
        r matches Err(e) ==> error_from(tokens@, pos as int, e),
    decreases tokens@.len() - pos, 10int,
{
    let t = tokens[pos];
    let len = tokens.len();
    match t.kind {
        TokenKind::Lit => {
            assert(pos + 1 < len);
            proof {
                lemma_cat(tokens@, pos as int, pos as int, pos + 1);
            }
            Ok((Expression::Lit(t), pos + 1))
        },
        TokenKind::Ident => match parse_path(tokens, pos) {
            Ok((path, end)) => Ok((Expression::Path(path), end)),
            Err(e) => Err(e),
        },
        TokenKind::LeftSquare => {
            assert(pos + 1 < len);
            let mut inner: Vec<Expression<'a>> = Vec::new();
            let mut p = pos + 1;
            assert(tokens@.subrange(pos + 1, pos + 1) =~= Seq::<Token<'a>>::empty());
            while tokens[p].kind != TokenKind::RightSquare
                invariant
                    well_terminated(tokens@),
                    len == tokens@.len(),
                    pos < p < tokens@.len(),
                    exprs_toks(inner@) == tokens@.subrange(pos + 1, p as int),
                    exprs_ok(inner@),
                    array_rest(kinds(tokens@), p as int) == array_rest(kinds(tokens@), pos + 1),
                    primary_end(kinds(tokens@), pos as int) == array_rest(kinds(tokens@), pos + 1),
                decreases tokens@.len() - p,
            {
                let (e, end) = match parse_expression(tokens, p) {
                    Ok(x) => x,
                    Err(e) => {
                        proof {
                            lemma_error_from(tokens@, pos as int, p as int, e);
                        }
                        return Err(e);
                    },
                };
                let ghost old_inner = inner@;
                inner.push(e);
                proof {
                    assert(inner@.drop_last() == old_inner);
                    lemma_cat(tokens@, pos + 1, p as int, end as int);
                }
                p = end;
            }
            let close = tokens[p];
            assert(p + 1 < len);
            proof {
                lemma_cat(tokens@, pos as int, pos + 1, p as int);
                lemma_cat(tokens@, pos as int, p as int, p + 1);
                lemma_cat(tokens@, pos as int, pos as int, pos + 1);
            }
            let e = Expression::Array(Box::new(Array { left_square: t, inner, right_square: close }));
            assert(expr_toks(e) =~= tokens@.subrange(pos as int, p + 1));
            Ok((e, p + 1))
        },
        TokenKind::LeftPar => {
            assert(pos + 1 < len);
            let op = tokens[pos + 1];
            if assign_op(op.kind) || level_of(op.kind) > 0 {
                assert(pos + 2 < len);
                let (left, p) = match parse_expression(tokens, pos + 2) {
                    Ok(x) => x,
                    Err(e) => {
                        proof {
                            lemma_error_from(tokens@, pos as int, pos + 2, e);
                        }
                        return Err(e);
                    },
                };
                let (right, q) = match parse_expression(tokens, p) {
                    Ok(x) => x,
                    Err(e) => {
                        proof {
                            lemma_error_from(tokens@, pos as int, p as int, e);
                        }
                        return Err(e);
                    },
                };
                let (close, end) = match expect(tokens, q, TokenKind::RightPar) {
                    Ok(x) => x,
                    Err(e) => {
                        assert(e == Error::UnexpectedToken(tokens@[q as int]));
                        return Err(e);
                    },
                };
                proof {
                    lemma_cat(tokens@, pos as int, pos + 2, p as int);
                    lemma_cat(tokens@, pos as int, p as int, q as int);
                    lemma_cat(tokens@, pos as int, q as int, end as int);
                    assert(tokens@.subrange(pos as int, pos + 2) =~= seq![t, op]);
                }
                let e = Expression::Lisp(
                    Box::new(LispNode { left_par: t, op, left, right, right_par: close }),
                );
                assert(expr_toks(e) =~= tokens@.subrange(pos as int, end as int));
                Ok((e, end))
            } else {
                let (inner, q) = match parse_expression(tokens, pos + 1) {
                    Ok(x) => x,
                    Err(e) => {
                        proof {
                            lemma_error_from(tokens@, pos as int, pos + 1, e);
                        }
                        return Err(e);
                    },
                };
                let (close, end) = match expect(tokens, q, TokenKind::RightPar) {
                    Ok(x) => x,
                    Err(e) => {
                        assert(e == Error::UnexpectedToken(tokens@[q as int]));
                        return Err(e);
                    },
                };
                proof {
                    lemma_cat(tokens@, pos as int, pos as int, pos + 1);
                    lemma_cat(tokens@, pos as int, pos + 1, q as int);
                    lemma_cat(tokens@, pos as int, q as int, end as int);
                }
                let e = Expression::Parenthesis(
                    Box::new(Parenthesis { left_par: t, inner, right_par: close }),
                );
                assert(expr_toks(e) =~= tokens@.subrange(pos as int, end as int));
                Ok((e, end))
            }
        },
        _ => {
            assert(error_from(tokens@, pos as int, Error::UnexpectedToken(tokens@[pos as int])));
            Err(Error::UnexpectedToken(t))
        },
    }
}


// types and fields

/// Tokens of a type.
pub open spec fn type_toks<'a>(t: Type<'a>) -> Seq<Token<'a>>
    decreases t,
{
    match t {
        Type::U8(k) => seq![k],
        Type::I8(k) => seq![k],
        Type::U16(k) => seq![k],
        Type::I16(k) => seq![k],
        Type::Array(a) => seq![a.left_square] + type_toks(a.type_) + opt_toks(a.semi_colon)
            + expr_toks(a.len) + seq![a.right_square],
        Type::Struct(r) => record_toks(*r),
        Type::Union(r) => record_toks(*r),
        Type::Pointer(p) => seq![p.ampersand] + type_toks(p.type_),
        Type::Path(p) => path_toks(p),
    }
}

/// Tokens of a struct or union.
pub open spec fn record_toks<'a>(r: Record<'a>) -> Seq<Token<'a>>
    decreases r,
{
    seq![r.keyword] + opt_toks(r.ident) + seq![r.left_bracket] + match r.fields {
        Some(f) => groups_toks(f),
        None => seq![],
    } + seq![r.right_bracket]
}

/// Tokens of a field group.
pub open spec fn group_toks<'a>(g: FieldGroup<'a>) -> Seq<Token<'a>>
    decreases g,
{
    sep_tokens_toks(g.idents) + seq![g.square] + type_toks(g.type_)
}

/// Tokens of comma separated field groups.
pub open spec fn groups_toks<'a>(s: Separated<FieldGroup<'a>, Token<'a>>) -> Seq<Token<'a>>
    decreases s,
{
    group_toks(s.head) + sep_groups_toks(s.tail@)
}

/// Tokens of `(separator, field group)` pairs.
pub open spec fn sep_groups_toks<'a>(v: Seq<(Token<'a>, FieldGroup<'a>)>) -> Seq<Token<'a>>
    decreases v,
{
    if v.len() == 0 {
        seq![]
    } else {
        sep_groups_toks(v.drop_last()) + seq![v.last().0] + group_toks(v.last().1)
    }
}

/// Tokens of a field.
pub open spec fn field_toks<'a>(f: Field<'a>) -> Seq<Token<'a>> {
    seq![f.ident, f.square] + type_toks(f.type_)
}

/// Separators between a field's name and its type: `::` or `:`.
pub open spec fn is_field_sep(k: TokenKind) -> bool {
    k == TokenKind::Square || k == TokenKind::Colon
}

/// Tokens that begin a type.
pub open spec fn starts_type(k: TokenKind) -> bool {
    k == TokenKind::U8 || k == TokenKind::I8 || k == TokenKind::U16 || k == TokenKind::I16 || k
        == TokenKind::LeftSquare || k == TokenKind::Ampersand || k == TokenKind::Struct || k
        == TokenKind::Union || k == TokenKind::Ident
}

/// Where the type that starts at `pos` ends; `None` where none does. This
/// is the grammar of types: a primitive keyword, `[ T [;] E ]`, `& T`, an
/// anonymous `struct` or `union`, or a path.
pub open spec fn type_end(t: Seq<TokenKind>, pos: int) -> Option<int>
    decreases t.len() - pos, 4int,
{
    if !(0 <= pos && pos + 1 < t.len()) {
        None
    } else if is_primitive_type(t[pos]) {
        Some(pos + 1)
    } else if t[pos] == TokenKind::LeftSquare {
        match type_end(t, pos + 1) {
            Some(p) => if pos + 1 < p < t.len() {
                let q = if t[p] == TokenKind::SemiColon {
                    p + 1
                } else {
                    p
                };
                if q < t.len() {
                    match expr_end(t, q) {
                        Some(l) => if q < l < t.len() && t[l] == TokenKind::RightSquare && l + 1 < t.len() {
                            Some(l + 1)
                        } else {
                            None
                        },
                        None => None,
                    }
                } else {
                    None
                }
            } else {
                None
            },
            None => None,
        }
    } else if t[pos] == TokenKind::Ampersand {
        type_end(t, pos + 1)
    } else if t[pos] == TokenKind::Struct || t[pos] == TokenKind::Union {
        record_end(t, pos, false)
    } else if t[pos] == TokenKind::Ident {
        Some(path_rest(t, pos + 1))
    } else {
        None
    }
}

/// Where `(struct | union) [<ident>] { [<field groups>] }` from `pos` ends;
/// the identifier is there exactly where `named`.
pub open spec fn record_end(t: Seq<TokenKind>, pos: int, named: bool) -> Option<int>
    decreases t.len() - pos, 3int,
{
    let p = if named {
        pos + 2
    } else {
        pos + 1
    };
    if !(0 <= pos && p + 1 < t.len()) {
        None
    } else if named && t[pos + 1] != TokenKind::Ident {
        None
    } else if t[p] != TokenKind::LeftBracket {
        None
    } else {
        let q = p + 1;
        let f = if t[q] == TokenKind::Ident {
            groups_end(t, q)
        } else {
            Some(q)
        };
        match f {
            Some(f) => if q <= f < t.len() && t[f] == TokenKind::RightBracket && f + 1 < t.len() {
                Some(f + 1)
            } else {
                None
            },
            None => None,
        }
    }
}

/// Where comma separated field groups from `pos` end.
pub open spec fn groups_end(t: Seq<TokenKind>, pos: int) -> Option<int>
    decreases t.len() - pos, 2int,
{
    if !(0 <= pos < t.len()) {
        None
    } else {
        match group_end(t, pos) {
            Some(p) => if pos < p < t.len() {
                groups_rest(t, p)
            } else {
                None
            },
            None => None,
        }
    }
}

/// Where the field groups `, G` from `p` end.
pub open spec fn groups_rest(t: Seq<TokenKind>, p: int) -> Option<int>
    decreases t.len() - p, 0int,
{
    if !(0 <= p < t.len()) {
        None
    } else if t[p] == TokenKind::Comma && p + 1 < t.len() {
        match group_end(t, p + 1) {
            Some(q) => if p + 1 < q < t.len() {
                groups_rest(t, q)
            } else {
                None
            },
            None => None,
        }
    } else {
        Some(p)
    }
}

/// Where the identifiers `, <ident>` from `p` end; a comma must be
/// followed by an identifier.
pub open spec fn idents_rest(t: Seq<TokenKind>, p: int) -> Option<int>
    decreases t.len() - p,
{
    if !(0 <= p < t.len()) {
        None
    } else if t[p] == TokenKind::Comma {
        if p + 2 < t.len() && t[p + 1] == TokenKind::Ident {
            idents_rest(t, p + 2)
        } else {
            None
        }
    } else {
        Some(p)
    }
}

/// Where `<ident> (, <ident>)* (: | ::) <type>` from `pos` ends.
pub open spec fn group_end(t: Seq<TokenKind>, pos: int) -> Option<int>
    decreases t.len() - pos, 1int,
{
    if !(0 <= pos && pos + 1 < t.len()) || t[pos] != TokenKind::Ident {
        None
    } else {
        match idents_rest(t, pos + 1) {
            Some(p) => if pos < p && p + 1 < t.len() && is_field_sep(t[p]) {
                type_end(t, p + 1)
            } else {
                None
            },
            None => None,
        }
    }
}

/// Where `<ident> (: | ::) <type>` from `pos` ends.
pub open spec fn field_end(t: Seq<TokenKind>, pos: int) -> Option<int> {
    if 0 <= pos && pos + 2 < t.len() && t[pos] == TokenKind::Ident && is_field_sep(t[pos + 1]) {
        type_end(t, pos + 2)
    } else {
        None
    }
}

fn field_sep(k: TokenKind) -> (r: bool)
    ensures
        r == is_field_sep(k),
{
    match k {
        TokenKind::Square | TokenKind::Colon => true,
        _ => false,
    }
}

fn type_start(k: TokenKind) -> (r: bool)
    ensures
        r == starts_type(k),
{
    match k {
        TokenKind::U8 | TokenKind::I8 | TokenKind::U16 | TokenKind::I16 | TokenKind::LeftSquare
        | TokenKind::Ampersand | TokenKind::Struct | TokenKind::Union | TokenKind::Ident => true,
        _ => false,
    }
}

/// The token that opens a type of this form.
pub open spec fn type_keyword<'a>(t: Type<'a>) -> TokenKind {
    match t {
        Type::U8(_) => TokenKind::U8,
        Type::I8(_) => TokenKind::I8,
        Type::U16(_) => TokenKind::U16,
        Type::I16(_) => TokenKind::I16,
        Type::Array(_) => TokenKind::LeftSquare,
        Type::Struct(_) => TokenKind::Struct,
        Type::Union(_) => TokenKind::Union,
        Type::Pointer(_) => TokenKind::Ampersand,
        Type::Path(_) => TokenKind::Ident,
    }
}

/// Keywords of the primitive types.
pub open spec fn is_primitive_type(k: TokenKind) -> bool {
    k == TokenKind::U8 || k == TokenKind::I8 || k == TokenKind::U16 || k == TokenKind::I16
}

/// Data type: `u8`, `i8`, `u16`, `i16`, `[ T [;] E ]`, `& T`,
/// `struct { [F] }`, `union { [F] }` or a path, its form chosen by its first
/// token. A primitive type is that one token, and a path is the longest one.
#[verifier::spinoff_prover]
pub fn parse_type<'a>(tokens: &Vec<Token<'a>>, pos: usize) -> (r: Result<(Type<'a>, usize), Error<'a>>)
    requires
        well_terminated(tokens@),
        pos < tokens@.len(),
    ensures
        ends_at(r, type_end(kinds(tokens@), pos as int)),
        r matches Ok((t, end)) ==> parsed(tokens@, pos as int, end as int, type_toks(t)) && type_ok(t),
        r matches Ok((t, _)) ==> type_keyword(t) == tokens@[pos as int].kind,
        r matches Err(e) ==> error_from(tokens@, pos as int, e),
        !starts_type(tokens@[pos as int].kind) ==> r == Err::<(Type<'a>, usize), Error<'a>>(
            Error::UnexpectedToken(tokens@[pos as int]),
        ),
        is_primitive_type(tokens@[pos as int].kind) ==> (r matches Ok((_, end)) && end == pos + 1),
        tokens@[pos as int].kind == TokenKind::Ident ==> (r matches Ok((t, end)) && !path_continues(
            kinds(tokens@),
            end as int,
        )),
    decreases tokens@.len() - pos, 4int,
{
    let t = tokens[pos];
    let len = tokens.len();
    match t.kind {
        TokenKind::U8 | TokenKind::I8 | TokenKind::U16 | TokenKind::I16 => {
            assert(pos + 1 < len);
            proof {
                lemma_cat(tokens@, pos as int, pos as int, pos + 1);
            }
            let ty = match t.kind {
                TokenKind::U8 => Type::U8(t),
                TokenKind::I8 => Type::I8(t),
                TokenKind::U16 => Type::U16(t),
                _ => Type::I16(t),
            };
            Ok((ty, pos + 1))
        },
        TokenKind::LeftSquare => {
            assert(pos + 1 < len);
            let (inner, p) = match parse_type(tokens, pos + 1) {
                Ok(x) => x,
                Err(e) => {
                    proof {
                        lemma_error_from(tokens@, pos as int, pos + 1, e);
                    }
                    return Err(e);
                },
            };
            let (semi_colon, q) = accept(tokens, p, TokenKind::SemiColon);
            let (length, l) = match parse_expression(tokens, q) {
                Ok(x) => x,
                Err(e) => {
                    proof {
                        lemma_error_from(tokens@, pos as int, q as int, e);
                    }
                    return Err(e);
                },
            };
            let (close, end) = match expect(tokens, l, TokenKind::RightSquare) {
                Ok(x) => x,
                Err(e) => {
                    assert(e == Error::UnexpectedToken(tokens@[l as int]));
                    return Err(e);
                },
            };
            let ty = Type::Array(
                Box::new(
                    ArrayType { left_square: t, type_: inner, semi_colon, len: length, right_square: close },
                ),
            );
            proof {
                lemma_cat(tokens@, pos as int, pos as int, pos + 1);
                lemma_cat(tokens@, pos as int, pos + 1, p as int);
                lemma_cat(tokens@, pos as int, p as int, q as int);
                lemma_cat(tokens@, pos as int, q as int, l as int);
                lemma_cat(tokens@, pos as int, l as int, end as int);
                assert(type_toks(ty) =~= tokens@.subrange(pos as int, end as int));
            }
            Ok((ty, end))
        },
        TokenKind::Ampersand => {
            assert(pos + 1 < len);
            let (inner, end) = match parse_type(tokens, pos + 1) {
                Ok(x) => x,
                Err(e) => {
                    proof {
                        lemma_error_from(tokens@, pos as int, pos + 1, e);
                    }
                    return Err(e);
                },
            };
            let ty = Type::Pointer(Box::new(PointerType { ampersand: t, type_: inner }));
            proof {
                lemma_cat(tokens@, pos as int, pos as int, pos + 1);
                lemma_cat(tokens@, pos as int, pos + 1, end as int);
                assert(type_toks(ty) =~= tokens@.subrange(pos as int, end as int));
            }
            Ok((ty, end))
        },
        TokenKind::Struct | TokenKind::Union => {
            let (record, end) = match parse_record(tokens, pos, false) {
                Ok(x) => x,
                Err(e) => return Err(e),
            };
            let ty = if t.kind == TokenKind::Struct {
                Type::Struct(Box::new(record))
            } else {
                Type::Union(Box::new(record))
            };
            Ok((ty, end))
        },
        TokenKind::Ident => match parse_path(tokens, pos) {
            Ok((path, end)) => Ok((Type::Path(path), end)),
            Err(e) => Err(e),
        },
        _ => {
            assert(error_from(tokens@, pos as int, Error::UnexpectedToken(tokens@[pos as int])));
            Err(Error::UnexpectedToken(t))
        },
    }
}

/// `(struct | union) [<ident>] { [<field groups>] }`; the identifier is
/// read where `named`, and must then be there.
#[verifier::spinoff_prover]
pub fn parse_record<'a>(tokens: &Vec<Token<'a>>, pos: usize, named: bool) -> (r: Result<
    (Record<'a>, usize),
    Error<'a>,
>)
    requires
        well_terminated(tokens@),
        pos < tokens@.len(),
        tokens@[pos as int].kind == TokenKind::Struct || tokens@[pos as int].kind == TokenKind::Union,
    ensures
        ends_at(r, record_end(kinds(tokens@), pos as int, named)),
        r matches Ok((rec, end)) ==> record_ok(rec) && parsed(tokens@, pos as int, end as int, record_toks(rec))
            && rec.keyword == tokens@[pos as int] && (rec.ident is Some <==> named),
        r matches Err(e) ==> error_from(tokens@, pos as int, e),
    decreases tokens@.len() - pos, 3int,
{
    let keyword = tokens[pos];
    let len = tokens.len();
    assert(pos + 1 < len);
    let (ident, p) = if named {
        match expect(tokens, pos + 1, TokenKind::Ident) {
            Ok((id, p)) => (Some(id), p),
            Err(e) => {
                assert(e == Error::UnexpectedToken(tokens@[pos + 1]));
                return Err(e);
            },
        }
    } else {
        assert(tokens@.subrange(pos + 1, pos + 1) =~= Seq::<Token<'a>>::empty());
        (None, pos + 1)
    };
    let (left_bracket, q) = match expect(tokens, p, TokenKind::LeftBracket) {
        Ok(x) => x,
        Err(e) => {
            assert(e == Error::UnexpectedToken(tokens@[p as int]));
            return Err(e);
        },
    };
    let (fields, f) = if tokens[q].kind == TokenKind::Ident {
        match parse_field_groups(tokens, q) {
            Ok((g, f)) => (Some(g), f),
            Err(e) => {
                proof {
                    lemma_error_from(tokens@, pos as int, q as int, e);
                }
                return Err(e);
            },
        }
    } else {
        assert(tokens@.subrange(q as int, q as int) =~= Seq::<Token<'a>>::empty());
        (None, q)
    };
    let (right_bracket, end) = match expect(tokens, f, TokenKind::RightBracket) {
        Ok(x) => x,
        Err(e) => {
            assert(e == Error::UnexpectedToken(tokens@[f as int]));
            return Err(e);
        },
    };
    let rec = Record { keyword, ident, left_bracket, fields, right_bracket };
    proof {
        lemma_cat(tokens@, pos as int, pos as int, pos + 1);
        lemma_cat(tokens@, pos as int, pos + 1, p as int);
        lemma_cat(tokens@, pos as int, p as int, q as int);
        lemma_cat(tokens@, pos as int, q as int, f as int);
        lemma_cat(tokens@, pos as int, f as int, end as int);
        assert(record_toks(rec) =~= tokens@.subrange(pos as int, end as int));
    }
    Ok((rec, end))
}

/// `<field group> (, <field group>)*`
#[verifier::spinoff_prover]
pub fn parse_field_groups<'a>(tokens: &Vec<Token<'a>>, pos: usize) -> (r: Result<
    (Separated<FieldGroup<'a>, Token<'a>>, usize),
    Error<'a>,
>)
    requires
        well_terminated(tokens@),
        pos < tokens@.len(),
    ensures
        ends_at(r, groups_end(kinds(tokens@), pos as int)),
        r matches Ok((g, end)) ==> parsed(tokens@, pos as int, end as int, groups_toks(g)) && groups_ok(g),
        r matches Err(e) ==> error_from(tokens@, pos as int, e),
    decreases tokens@.len() - pos, 2int,
{
    let (head, mut p) = match parse_field_group(tokens, pos) {
        Ok(x) => x,
        Err(e) => return Err(e),
    };
    let mut tail: Vec<(Token<'a>, FieldGroup<'a>)> = Vec::new();
    let len = tokens.len();
    while tokens[p].kind == TokenKind::Comma
        invariant
            well_terminated(tokens@),
            len == tokens@.len(),
            parsed(tokens@, pos as int, p as int, group_toks(head) + sep_groups_toks(tail@)),
            type_ok(head.type_),
            sep_groups_ok(tail@),
            groups_rest(kinds(tokens@), p as int) == groups_end(kinds(tokens@), pos as int),
        decreases tokens@.len() - p,
    {
        let comma = tokens[p];
        assert(p + 1 < len);
        let (g, end) = match parse_field_group(tokens, p + 1) {
            Ok(x) => x,
            Err(e) => {
                proof {
                    lemma_error_from(tokens@, pos as int, p + 1, e);
                }
                return Err(e);
            },
        };
        let ghost old_tail = tail@;
        tail.push((comma, g));
        proof {
            assert(tail@.drop_last() == old_tail);
            lemma_cat(tokens@, pos as int, p as int, p + 1);
            lemma_cat(tokens@, pos as int, p + 1, end as int);
            assert(group_toks(head) + sep_groups_toks(tail@) =~= tokens@.subrange(pos as int, end as int));
        }
        p = end;
    }
    Ok((Separated { head, tail }, p))
}

/// `<ident> (, <ident>)* (: | ::) <type>`
#[verifier::spinoff_prover]
pub fn parse_field_group<'a>(tokens: &Vec<Token<'a>>, pos: usize) -> (r: Result<
    (FieldGroup<'a>, usize),
    Error<'a>,
>)
    requires
        well_terminated(tokens@),
        pos < tokens@.len(),
    ensures
        ends_at(r, group_end(kinds(tokens@), pos as int)),
        r matches Ok((g, end)) ==> parsed(tokens@, pos as int, end as int, group_toks(g)) && type_ok(g.type_),
        r matches Err(e) ==> error_from(tokens@, pos as int, e),
    decreases tokens@.len() - pos, 1int,
{
    let (head, mut p) = match expect(tokens, pos, TokenKind::Ident) {
        Ok(x) => x,
        Err(e) => {
            assert(e == Error::UnexpectedToken(tokens@[pos as int]));
            return Err(e);
        },
    };
    let mut tail: Vec<(Token<'a>, Token<'a>)> = Vec::new();
    let len = tokens.len();
    while tokens[p].kind == TokenKind::Comma
        invariant
            well_terminated(tokens@),
            len == tokens@.len(),
            pos < p < tokens@.len(),
            seq![head] + pairs_toks(tail@) == tokens@.subrange(pos as int, p as int),
            idents_rest(kinds(tokens@), p as int) == idents_rest(kinds(tokens@), pos + 1),
        decreases tokens@.len() - p,
    {
        let comma = tokens[p];
        assert(p + 1 < len);
        let (id, end) = match expect(tokens, p + 1, TokenKind::Ident) {
            Ok(x) => x,
            Err(e) => {
                assert(e == Error::UnexpectedToken(tokens@[p + 1]));
                return Err(e);
            },
        };
        let ghost old_tail = tail@;
        tail.push((comma, id));
        assert(tail@.drop_last() == old_tail);
        proof {
            lemma_cat(tokens@, pos as int, p as int, end as int);
            assert(tokens@.subrange(p as int, end as int) =~= seq![comma, id]);
        }
        p = end;
    }
    let square = tokens[p];
    if !field_sep(square.kind) {
        return Err(Error::UnexpectedToken(square));
    }
    assert(p + 1 < len);
    let (type_, end) = match parse_type(tokens, p + 1) {
        Ok(x) => x,
        Err(e) => {
            proof {
                lemma_error_from(tokens@, pos as int, p + 1, e);
            }
            return Err(e);
        },
    };
    let g = FieldGroup { idents: Separated { head, tail }, square, type_ };
    proof {
        lemma_cat(tokens@, pos as int, p as int, p + 1);
        lemma_cat(tokens@, pos as int, p + 1, end as int);
        assert(group_toks(g) =~= tokens@.subrange(pos as int, end as int));
    }
    Ok((g, end))
}

/// `<ident> (: | ::) <type>`
pub fn parse_field<'a>(tokens: &Vec<Token<'a>>, pos: usize) -> (r: Result<(Field<'a>, usize), Error<'a>>)
    requires
        well_terminated(tokens@),
        pos < tokens@.len(),
    ensures
        ends_at(r, field_end(kinds(tokens@), pos as int)),
        r matches Ok((f, end)) ==> parsed(tokens@, pos as int, end as int, field_toks(f)) && field_ok(f),
        r matches Err(e) ==> error_from(tokens@, pos as int, e),
{
    let (ident, p) = match expect(tokens, pos, TokenKind::Ident) {
        Ok(x) => x,
        Err(e) => {
            assert(e == Error::UnexpectedToken(tokens@[pos as int]));
            return Err(e);
        },
    };
    let square = tokens[p];
    if !field_sep(square.kind) {
        return Err(Error::UnexpectedToken(square));
    }
    let len = tokens.len();
    assert(p + 1 < len);
    let (type_, end) = match parse_type(tokens, p + 1) {
        Ok(x) => x,
        Err(e) => {
            proof {
                lemma_error_from(tokens@, pos as int, p + 1, e);
            }
            return Err(e);
        },
    };
    let f = Field { ident, square, type_ };
    proof {
        lemma_cat(tokens@, pos as int, p as int, p + 1);
        lemma_cat(tokens@, pos as int, p + 1, end as int);
        assert(field_toks(f) =~= tokens@.subrange(pos as int, end as int));
    }
    Ok((f, end))
}


// statements

/// Tokens of a statement.
pub open spec fn stmt_toks<'a>(s: Statement<'a>) -> Seq<Token<'a>>
    decreases s,
{
    match s {
        Statement::Panic(t) => seq![t],
        Statement::Mod(m) => seq![m.mod_, m.ident.0, m.left_bracket] + stmts_toks(m.inner@)
            + seq![m.right_bracket],
        Statement::Struct(r) => record_toks(*r),
        Statement::Union(r) => record_toks(*r),
        Statement::Asm(a) => seq![a.keyword, a.left_bracket, a.right_bracket],
        Statement::Static(st) => seq![st.static_] + match st.offset {
            Some(o) => seq![o.at] + expr_toks(o.expression),
            None => seq![],
        } + field_toks(st.field) + seq![st.semi_colon],
        Statement::Const(c) => seq![c.const_] + field_toks(c.field) + seq![c.assign] + expr_toks(
            c.expression,
        ) + seq![c.semi_colon],
        Statement::Let(l) => seq![l.let_] + field_toks(l.field) + seq![l.assign] + expr_toks(
            l.expression,
        ) + opt_toks(l.semi_colon),
        Statement::For(f) => seq![f.for_] + field_toks(f.field) + seq![f.in_] + range_toks(f.range)
            + seq![f.left_bracket] + stmts_toks(f.inner@) + seq![f.right_bracket],
        Statement::Loop(l) => seq![l.loop_, l.left_bracket] + stmts_toks(l.inner@) + seq![
            l.right_bracket,
        ],
        Statement::Fn(f) => seq![f.fn_, f.ident] + match f.fn_args {
            Some(a) => seq![a.left_par] + groups_toks(a.args) + seq![a.right_par],
            None => seq![],
        } + match f.type_ {
            Some(t) => type_toks(t),
            None => seq![],
        } + seq![f.left_bracket] + stmts_toks(f.inner@) + seq![f.right_bracket],
        Statement::Scope(b) => seq![b.left_bracket] + stmts_toks(b.inner@) + seq![b.right_bracket],
        Statement::If(i) => seq![i.if_] + expr_toks(i.expression) + seq![i.left_bracket]
            + stmts_toks(i.inner@) + seq![i.right_bracket],
        Statement::IfElse(ie) => seq![ie.if_.if_] + expr_toks(ie.if_.expression) + seq![
            ie.if_.left_bracket,
        ] + stmts_toks(ie.if_.inner@) + seq![ie.if_.right_bracket, ie.else_.else_, ie.else_.left_bracket]
            + stmts_toks(ie.else_.inner@) + seq![ie.else_.right_bracket],
        Statement::Break(j) => seq![j.keyword] + opt_toks(j.semi_colon),
        Statement::Continue(j) => seq![j.keyword] + opt_toks(j.semi_colon),
        Statement::Inline(i) => expr_toks(i.inner) + seq![i.semi_colon],
    }
}

/// Tokens of a list of statements.
pub open spec fn stmts_toks<'a>(v: Seq<Statement<'a>>) -> Seq<Token<'a>>
    decreases v,
{
    if v.len() == 0 {
        seq![]
    } else {
        stmts_toks(v.drop_last()) + stmt_toks(v.last())
    }
}

/// Tokens of a range.
pub open spec fn range_toks<'a>(r: Range<'a>) -> Seq<Token<'a>> {
    expr_toks(r.left) + seq![r.dot_dot] + opt_toks(r.eq) + opt_toks(r.plus) + expr_toks(r.right)
}

/// A field is an identifier, a separator and a well formed type.
pub open spec fn field_ok<'a>(f: Field<'a>) -> bool {
    f.ident.kind == TokenKind::Ident && is_field_sep(f.square.kind) && type_ok(f.type_)
}

/// Each type in `t` has the form its first token names (a `u16` token for
/// `u16`, `&` for a pointer, an identifier path for a named type, ...), and
/// every expression of it (array lengths) follows the precedence of the
/// operators.
pub open spec fn type_ok<'a>(t: Type<'a>) -> bool
    decreases t,
{
    match t {
        Type::U8(k) => k.kind == TokenKind::U8,
        Type::I8(k) => k.kind == TokenKind::I8,
        Type::U16(k) => k.kind == TokenKind::U16,
        Type::I16(k) => k.kind == TokenKind::I16,
        Type::Array(a) => a.left_square.kind == TokenKind::LeftSquare && type_ok(a.type_) && precedence_ok(a.len),
        Type::Struct(r) => r.keyword.kind == TokenKind::Struct && record_ok(*r),
        Type::Union(r) => r.keyword.kind == TokenKind::Union && record_ok(*r),
        Type::Pointer(p) => p.ampersand.kind == TokenKind::Ampersand && type_ok(p.type_),
        Type::Path(p) => path_shape(p),
    }
}

/// Every type of a struct or union follows the precedence of the operators.
pub open spec fn record_ok<'a>(r: Record<'a>) -> bool
    decreases r,
{
    match r.fields {
        Some(f) => groups_ok(f),
        None => true,
    }
}

/// Every type of comma separated field groups follows the precedence of the
/// operators.
pub open spec fn groups_ok<'a>(s: Separated<FieldGroup<'a>, Token<'a>>) -> bool
    decreases s,
{
    type_ok(s.head.type_) && sep_groups_ok(s.tail@)
}

/// Every type of `(separator, field group)` pairs follows the precedence of
/// the operators.
pub open spec fn sep_groups_ok<'a>(v: Seq<(Token<'a>, FieldGroup<'a>)>) -> bool
    decreases v,
{
    v.len() == 0 || (sep_groups_ok(v.drop_last()) && type_ok(v.last().1.type_))
}

/// The statement has the form its first token chooses (see
/// [`statement_keyword`]).
pub open spec fn statement_form_ok<'a>(s: Statement<'a>) -> bool {
    stmt_toks(s).len() > 0 && match statement_keyword(s) {
        Some(k) => stmt_toks(s)[0].kind == k,
        None => !is_statement_keyword(stmt_toks(s)[0].kind),
    }
}

/// The statement (and each statement nested in it) has the form its first
/// token chooses, and every expression of it, its types included, follows
/// the precedence of the operators (see [`precedence_ok`]).
pub open spec fn stmt_ok<'a>(s: Statement<'a>) -> bool
    decreases s,
{
    &&& statement_form_ok(s)
    &&& match s {
        Statement::Mod(m) => stmts_ok(m.inner@),
        Statement::Struct(r) => record_ok(*r),
        Statement::Union(r) => record_ok(*r),
        Statement::Static(st) => field_ok(st.field) && (match st.offset {
            Some(o) => precedence_ok(o.expression),
            None => true,
        }),
        Statement::Const(c) => field_ok(c.field) && precedence_ok(c.expression),
        Statement::Let(l) => field_ok(l.field) && precedence_ok(l.expression),
        Statement::For(f) => field_ok(f.field) && precedence_ok(f.range.left) && precedence_ok(f.range.right)
            && stmts_ok(f.inner@),
        Statement::Loop(l) => stmts_ok(l.inner@),
        Statement::Fn(f) => (match f.fn_args {
            Some(a) => groups_ok(a.args),
            None => true,
        }) && (match f.type_ {
            Some(t) => type_ok(t),
            None => true,
        }) && stmts_ok(f.inner@),
        Statement::Scope(b) => stmts_ok(b.inner@),
        Statement::If(i) => precedence_ok(i.expression) && stmts_ok(i.inner@),
        Statement::IfElse(ie) => precedence_ok(ie.if_.expression) && stmts_ok(ie.if_.inner@) && stmts_ok(
            ie.else_.inner@,
        ),
        Statement::Inline(i) => precedence_ok(i.inner),
        _ => true,
    }
}

/// Every statement of the list is well formed (see [`stmt_ok`]).
pub open spec fn stmts_ok<'a>(v: Seq<Statement<'a>>) -> bool
    decreases v,
{
    v.len() == 0 || (stmts_ok(v.drop_last()) && stmt_ok(v.last()))
}

/// Tokens of a program.
pub open spec fn ast_toks<'a>(a: Ast<'a>) -> Seq<Token<'a>> {
    stmts_toks(a.inner@) + seq![a.eof]
}

/// Tokens that end a list of statements.
pub open spec fn ends_block(k: TokenKind) -> bool {
    k == TokenKind::RightBracket || k == TokenKind::Eof
}

/// Where an expression closed by `;` from `pos` ends.
pub open spec fn semi_end(t: Seq<TokenKind>, e: Option<int>) -> Option<int> {
    match e {
        Some(q) => if 0 <= q && q + 1 < t.len() && t[q] == TokenKind::SemiColon {
            Some(q + 1)
        } else {
            None
        },
        None => None,
    }
}

/// Where `static [@ E] <field> ;` from `pos` ends.
pub open spec fn static_end(t: Seq<TokenKind>, pos: int) -> Option<int> {
    if !(0 <= pos && pos + 2 < t.len()) {
        None
    } else {
        let p = if t[pos + 1] == TokenKind::At {
            expr_end(t, pos + 2)
        } else {
            Some(pos + 1)
        };
        match p {
            Some(p) => if pos < p < t.len() {
                semi_end(t, field_end(t, p))
            } else {
                None
            },
            None => None,
        }
    }
}

/// Where `<field> = E` from `pos` ends.
pub open spec fn binding_end(t: Seq<TokenKind>, pos: int) -> Option<int> {
    match field_end(t, pos) {
        Some(p) => if pos < p && p + 1 < t.len() && t[p] == TokenKind::Assign {
            expr_end(t, p + 1)
        } else {
            None
        },
        None => None,
    }
}

/// Where `E .. [=] [+] E` from `pos` ends.
pub open spec fn range_end(t: Seq<TokenKind>, pos: int) -> Option<int> {
    match expr_end(t, pos) {
        Some(p) => if pos < p && p + 1 < t.len() && t[p] == TokenKind::DotDot {
            let a = if t[p + 1] == TokenKind::Assign {
                p + 2
            } else {
                p + 1
            };
            if a < t.len() {
                let b = if t[a] == TokenKind::Plus {
                    a + 1
                } else {
                    a
                };
                expr_end(t, b)
            } else {
                None
            }
        } else {
            None
        },
        None => None,
    }
}

/// Where the head `fn <ident> [( F )] [T]` from `pos` ends, before the body.
pub open spec fn fn_head_end(t: Seq<TokenKind>, pos: int) -> Option<int> {
    if !(0 <= pos && pos + 3 < t.len() && t[pos + 1] == TokenKind::Ident) {
        None
    } else {
        let p = pos + 2;
        let q = if t[p] == TokenKind::LeftPar {
            match groups_end(t, p + 1) {
                Some(a) => if p < a && a + 1 < t.len() && t[a] == TokenKind::RightPar {
                    Some(a + 1)
                } else {
                    None
                },
                None => None,
            }
        } else {
            Some(p)
        };
        match q {
            Some(q) => if starts_type(t[q]) {
                type_end(t, q)
            } else {
                Some(q)
            },
            None => None,
        }
    }
}

/// Where the statements from `p` end: before a `}` or the end of file.
pub open spec fn stmts_rest(t: Seq<TokenKind>, p: int) -> Option<int>
    decreases t.len() - p, 3int,
{
    if !(0 <= p < t.len()) {
        None
    } else if ends_block(t[p]) {
        Some(p)
    } else {
        match stmt_end(t, p) {
            Some(q) => if p < q < t.len() {
                stmts_rest(t, q)
            } else {
                None
            },
            None => None,
        }
    }
}

/// Where `{ S* }` from `pos` ends.
pub open spec fn block_end(t: Seq<TokenKind>, pos: int) -> Option<int>
    decreases t.len() - pos, 0int,
{
    if !(0 <= pos && pos + 1 < t.len()) || t[pos] != TokenKind::LeftBracket {
        None
    } else {
        match stmts_rest(t, pos + 1) {
            Some(q) => if pos < q && q + 1 < t.len() && t[q] == TokenKind::RightBracket {
                Some(q + 1)
            } else {
                None
            },
            None => None,
        }
    }
}

/// Where the block that follows position `p` (after it) ends.
pub open spec fn block_after(t: Seq<TokenKind>, pos: int, p: Option<int>) -> Option<int>
    decreases t.len() - pos, 1int,
{
    match p {
        Some(p) => if pos < p < t.len() {
            block_end(t, p)
        } else {
            None
        },
        None => None,
    }
}

/// Where the statement that starts at `pos` ends; `None` where none does.
/// This is the grammar of statements: the first token chooses the form
/// (see [`statement_keyword`]), any other token opens an expression closed
/// by `;`.
pub open spec fn stmt_end(t: Seq<TokenKind>, pos: int) -> Option<int>
    decreases t.len() - pos, 2int,
{
    if !(0 <= pos && pos + 1 < t.len()) {
        None
    } else {
        let k = t[pos];
        if k == TokenKind::BangBang {
            Some(pos + 1)
        } else if k == TokenKind::Struct || k == TokenKind::Union {
            record_end(t, pos, true)
        } else if k == TokenKind::Asm {
            if pos + 3 < t.len() && t[pos + 1] == TokenKind::LeftBracket && t[pos + 2] == TokenKind::RightBracket {
                Some(pos + 3)
            } else {
                None
            }
        } else if k == TokenKind::Static {
            static_end(t, pos)
        } else if k == TokenKind::Const {
            semi_end(t, binding_end(t, pos + 1))
        } else if k == TokenKind::Let {
            match binding_end(t, pos + 1) {
                Some(l) => if 0 <= l && l + 1 < t.len() && t[l] == TokenKind::SemiColon {
                    Some(l + 1)
                } else {
                    Some(l)
                },
                None => None,
            }
        } else if k == TokenKind::Break || k == TokenKind::Continue {
            if t[pos + 1] == TokenKind::SemiColon {
                Some(pos + 2)
            } else {
                Some(pos + 1)
            }
        } else if k == TokenKind::Mod {
            if t[pos + 1] == TokenKind::Ident {
                block_after(t, pos, Some(pos + 2))
            } else {
                None
            }
        } else if k == TokenKind::Loop {
            block_after(t, pos, Some(pos + 1))
        } else if k == TokenKind::LeftBracket {
            block_end(t, pos)
        } else if k == TokenKind::For {
            match field_end(t, pos + 1) {
                Some(p) => if pos < p && p + 1 < t.len() && t[p] == TokenKind::In {
                    block_after(t, pos, range_end(t, p + 1))
                } else {
                    None
                },
                None => None,
            }
        } else if k == TokenKind::Fn {
            block_after(t, pos, fn_head_end(t, pos))
        } else if k == TokenKind::If {
            match block_after(t, pos, expr_end(t, pos + 1)) {
                Some(e) => if pos < e && e + 1 < t.len() && t[e] == TokenKind::Else {
                    block_after(t, pos, Some(e + 1))
                } else {
                    Some(e)
                },
                None => None,
            }
        } else {
            semi_end(t, expr_end(t, pos))
        }
    }
}

/// The tokens form a program: statements up to the end of file.
pub open spec fn program_parses(t: Seq<TokenKind>) -> bool {
    stmts_rest(t, 0) matches Some(p) && t[p] == TokenKind::Eof
}

/// `S*`, up to (excluded) a `}` or the end of file.
#[verifier::spinoff_prover]
pub fn parse_statements<'a>(tokens: &Vec<Token<'a>>, pos: usize) -> (r: Result<
    (Vec<Statement<'a>>, usize),
    Error<'a>,
>)
    requires
        well_terminated(tokens@),
        pos < tokens@.len(),
    ensures
        ends_at(r, stmts_rest(kinds(tokens@), pos as int)),
        r matches Ok((v, end)) ==> pos <= end < tokens@.len() && stmts_toks(v@) == tokens@.subrange(
            pos as int,
            end as int,
        ) && ends_block(tokens@[end as int].kind) && stmts_ok(v@),
        r matches Err(e) ==> error_from(tokens@, pos as int, e),
    decreases tokens@.len() - pos, 3int,
{
    let mut v: Vec<Statement<'a>> = Vec::new();
    let mut p = pos;
    let len = tokens.len();
    assert(tokens@.subrange(pos as int, pos as int) =~= Seq::<Token<'a>>::empty());
    while tokens[p].kind != TokenKind::RightBracket && tokens[p].kind != TokenKind::Eof
        invariant
            well_terminated(tokens@),
            len == tokens@.len(),
            pos <= p < tokens@.len(),
            stmts_toks(v@) == tokens@.subrange(pos as int, p as int),
            stmts_ok(v@),
            stmts_rest(kinds(tokens@), p as int) == stmts_rest(kinds(tokens@), pos as int),
        decreases tokens@.len() - p,
    {
        let (st, end) = match parse_statement(tokens, p) {
            Ok(x) => x,
            Err(e) => {
                proof {
                    lemma_error_from(tokens@, pos as int, p as int, e);
                }
                return Err(e);
            },
        };
        let ghost old_v = v@;
        v.push(st);
        proof {
            assert(v@.drop_last() == old_v);
            lemma_cat(tokens@, pos as int, p as int, end as int);
        }
        p = end;
    }
    Ok((v, p))
}

/// `{ S* }`
#[verifier::spinoff_prover]
fn parse_block<'a>(tokens: &Vec<Token<'a>>, pos: usize) -> (r: Result<
    (Token<'a>, Vec<Statement<'a>>, Token<'a>, usize),
    Error<'a>,
>)
    requires
        well_terminated(tokens@),
        pos < tokens@.len(),
    ensures
        match r {
            Ok((_, _, _, end)) => block_end(kinds(tokens@), pos as int) == Some(end as int),
            Err(_) => block_end(kinds(tokens@), pos as int) is None,
        },
        r matches Ok((lb, v, rb, end)) ==> parsed(
            tokens@,
            pos as int,
            end as int,
            seq![lb] + stmts_toks(v@) + seq![rb],
        ) && stmts_ok(v@),
        r matches Err(e) ==> error_from(tokens@, pos as int, e),
    decreases tokens@.len() - pos, 0int,
{
    let (lb, p) = match expect(tokens, pos, TokenKind::LeftBracket) {
        Ok(x) => x,
        Err(e) => {
            assert(e == Error::UnexpectedToken(tokens@[pos as int]));
            return Err(e);
        },
    };
    let (v, q) = match parse_statements(tokens, p) {
        Ok(x) => x,
        Err(e) => {
            proof {
                lemma_error_from(tokens@, pos as int, p as int, e);
            }
            return Err(e);
        },
    };
    let (rb, end) = match expect(tokens, q, TokenKind::RightBracket) {
        Ok(x) => x,
        Err(e) => {
            assert(e == Error::UnexpectedToken(tokens@[q as int]));
            return Err(e);
        },
    };
    proof {
        lemma_cat(tokens@, pos as int, p as int, q as int);
        lemma_cat(tokens@, pos as int, q as int, end as int);
        assert(seq![lb] + stmts_toks(v@) + seq![rb] =~= tokens@.subrange(pos as int, end as int));
    }
    Ok((lb, v, rb, end))
}

/// The keyword that opens a statement of this form (`{` for a scope, `if`
/// for both forms of `if`); `None` for an inline expression.
pub open spec fn statement_keyword<'a>(s: Statement<'a>) -> Option<TokenKind> {
    match s {
        Statement::Panic(_) => Some(TokenKind::BangBang),
        Statement::Mod(_) => Some(TokenKind::Mod),
        Statement::Struct(_) => Some(TokenKind::Struct),
        Statement::Union(_) => Some(TokenKind::Union),
        Statement::Asm(_) => Some(TokenKind::Asm),
        Statement::Static(_) => Some(TokenKind::Static),
        Statement::Const(_) => Some(TokenKind::Const),
        Statement::Let(_) => Some(TokenKind::Let),
        Statement::For(_) => Some(TokenKind::For),
        Statement::Loop(_) => Some(TokenKind::Loop),
        Statement::Fn(_) => Some(TokenKind::Fn),
        Statement::Scope(_) => Some(TokenKind::LeftBracket),
        Statement::If(_) => Some(TokenKind::If),
        Statement::IfElse(_) => Some(TokenKind::If),
        Statement::Break(_) => Some(TokenKind::Break),
        Statement::Continue(_) => Some(TokenKind::Continue),
        Statement::Inline(_) => None,
    }
}

/// Tokens that open a statement other than an inline expression.
pub open spec fn is_statement_keyword(k: TokenKind) -> bool {
    k == TokenKind::BangBang || k == TokenKind::Mod || k == TokenKind::Struct || k == TokenKind::Union || k
        == TokenKind::Asm || k == TokenKind::Static || k == TokenKind::Const || k == TokenKind::Let || k
        == TokenKind::For || k == TokenKind::Loop || k == TokenKind::Fn || k == TokenKind::LeftBracket || k
        == TokenKind::If || k == TokenKind::Break || k == TokenKind::Continue
}

/// One statement, whose form is chosen by its first token: the statement
/// that this keyword opens, or an inline expression for any other token.
/// `!!`, `break` and `continue` always parse; `break` and `continue` take the
/// `;` that follows them, if one does.
#[verifier::spinoff_prover]
pub fn parse_statement<'a>(tokens: &Vec<Token<'a>>, pos: usize) -> (r: Result<
    (Statement<'a>, usize),
    Error<'a>,
>)
    requires
        well_terminated(tokens@),
        pos < tokens@.len(),
    ensures
        ends_at(r, stmt_end(kinds(tokens@), pos as int)),
        r matches Ok((s, end)) ==> parsed(tokens@, pos as int, end as int, stmt_toks(s)) && stmt_ok(s),
        r matches Ok((s, _)) ==> statement_keyword(s) == if is_statement_keyword(tokens@[pos as int].kind) {
            Some(tokens@[pos as int].kind)
        } else {
            None::<TokenKind>
        },
        tokens@[pos as int].kind == TokenKind::BangBang ==> r == Ok::<(Statement<'a>, usize), Error<'a>>(
            (Statement::Panic(tokens@[pos as int]), (pos + 1) as usize),
        ),
        (tokens@[pos as int].kind == TokenKind::Break || tokens@[pos as int].kind == TokenKind::Continue)
            ==> (r matches Ok((s, _)) && match s {
            Statement::Break(j) | Statement::Continue(j) => j.keyword == tokens@[pos as int] && (j.semi_colon is Some
                <==> tokens@[pos + 1].kind == TokenKind::SemiColon),
            _ => false,
        }),
        r matches Err(e) ==> error_from(tokens@, pos as int, e),
    decreases tokens@.len() - pos, 2int,
{
    let t = tokens[pos];
    let len = tokens.len();
    match t.kind {
        TokenKind::BangBang => {
            assert(pos + 1 < len);
            proof {
                lemma_cat(tokens@, pos as int, pos as int, pos + 1);
            }
            Ok((Statement::Panic(t), pos + 1))
        },
        TokenKind::Struct | TokenKind::Union => {
            let (rec, end) = match parse_record(tokens, pos, true) {
                Ok(x) => x,
                Err(e) => return Err(e),
            };
            if t.kind == TokenKind::Struct {
                Ok((Statement::Struct(Box::new(rec)), end))
            } else {
                Ok((Statement::Union(Box::new(rec)), end))
            }
        },
        TokenKind::Asm => parse_asm(tokens, pos),
        TokenKind::Static => parse_static(tokens, pos),
        TokenKind::Const => parse_const(tokens, pos),
        TokenKind::Let => parse_let(tokens, pos),
        TokenKind::Break | TokenKind::Continue => {
            assert(pos + 1 < len);
            let (semi_colon, end) = accept(tokens, pos + 1, TokenKind::SemiColon);
            let j = Jump { keyword: t, semi_colon };
            let st = if t.kind == TokenKind::Break {
                Statement::Break(j)
            } else {
                Statement::Continue(j)
            };
            proof {
                lemma_cat(tokens@, pos as int, pos as int, pos + 1);
                lemma_cat(tokens@, pos as int, pos + 1, end as int);
                assert(stmt_toks(st) =~= tokens@.subrange(pos as int, end as int));
            }
            Ok((st, end))
        },
        TokenKind::Mod => parse_mod(tokens, pos),
        TokenKind::Loop => parse_loop(tokens, pos),
        TokenKind::LeftBracket => parse_scope(tokens, pos),
        TokenKind::For => parse_for(tokens, pos),
        TokenKind::Fn => parse_fn(tokens, pos),
        TokenKind::If => parse_if(tokens, pos),
        _ => parse_inline(tokens, pos),
    }
}

/// `asm { }`
#[verifier::spinoff_prover]
fn parse_asm<'a>(tokens: &Vec<Token<'a>>, pos: usize) -> (r: Result<(Statement<'a>, usize), Error<'a>>)
    requires
        well_terminated(tokens@),
        pos < tokens@.len(),
        tokens@[pos as int].kind == TokenKind::Asm,
    ensures
        ends_at(r, stmt_end(kinds(tokens@), pos as int)),
        r matches Ok((s, _)) ==> s is Asm,
        r matches Ok((s, end)) ==> parsed(tokens@, pos as int, end as int, stmt_toks(s)) && stmt_ok(s),
        r matches Err(e) ==> error_from(tokens@, pos as int, e),
{
    let keyword = tokens[pos];
    let len = tokens.len();
    assert(pos + 1 < len);
    let (left_bracket, p) = match expect(tokens, pos + 1, TokenKind::LeftBracket) {
        Ok(x) => x,
        Err(e) => {
            assert(e == Error::UnexpectedToken(tokens@[pos + 1]));
            return Err(e);
        },
    };
    let (right_bracket, end) = match expect(tokens, p, TokenKind::RightBracket) {
        Ok(x) => x,
        Err(e) => {
            assert(e == Error::UnexpectedToken(tokens@[p as int]));
            return Err(e);
        },
    };
    let st = Statement::Asm(Box::new(Asm { keyword, left_bracket, right_bracket }));
    proof {
        assert(tokens@.subrange(pos as int, end as int) =~= seq![keyword, left_bracket, right_bracket]);
    }
    Ok((st, end))
}

/// `static [@ E] <field> ;`
#[verifier::spinoff_prover]
fn parse_static<'a>(tokens: &Vec<Token<'a>>, pos: usize) -> (r: Result<(Statement<'a>, usize), Error<'a>>)
    requires
        well_terminated(tokens@),
        pos < tokens@.len(),
        tokens@[pos as int].kind == TokenKind::Static,
    ensures
        ends_at(r, stmt_end(kinds(tokens@), pos as int)),
        r matches Ok((s, _)) ==> s is Static,
        r matches Ok((s, end)) ==> parsed(tokens@, pos as int, end as int, stmt_toks(s)) && stmt_ok(s),
        r matches Err(e) ==> error_from(tokens@, pos as int, e),
{
    let static_ = tokens[pos];
    let len = tokens.len();
    assert(pos + 1 < len);
    let (offset, p) = if tokens[pos + 1].kind == TokenKind::At {
        let at = tokens[pos + 1];
        assert(pos + 2 < len);
        match parse_expression(tokens, pos + 2) {
            Ok((expression, p)) => {
                proof {
                    lemma_cat(tokens@, pos + 1, pos + 2, p as int);
                }
                (Some(StaticOffset { at, expression }), p)
            },
            Err(e) => {
                proof {
                    lemma_error_from(tokens@, pos as int, pos + 2, e);
                }
                return Err(e);
            },
        }
    } else {
        (None, pos + 1)
    };
    assert(tokens@.subrange(pos + 1, p as int) =~= match offset {
        Some(o) => seq![o.at] + expr_toks(o.expression),
        None => Seq::<Token<'a>>::empty(),
    });
    let (field, q) = match parse_field(tokens, p) {
        Ok(x) => x,
        Err(e) => {
            proof {
                lemma_error_from(tokens@, pos as int, p as int, e);
            }
            return Err(e);
        },
    };
    let (semi_colon, end) = match expect(tokens, q, TokenKind::SemiColon) {
        Ok(x) => x,
        Err(e) => {
            assert(e == Error::UnexpectedToken(tokens@[q as int]));
            return Err(e);
        },
    };
    let st = Statement::Static(Box::new(Static { static_, offset, field, semi_colon }));
    proof {
        lemma_cat(tokens@, pos as int, pos as int, pos + 1);
        lemma_cat(tokens@, pos as int, pos + 1, p as int);
        lemma_cat(tokens@, pos as int, p as int, q as int);
        lemma_cat(tokens@, pos as int, q as int, end as int);
        assert(stmt_toks(st) =~= tokens@.subrange(pos as int, end as int));
    }
    Ok((st, end))
}

/// `const <field> = E ;`
#[verifier::spinoff_prover]
fn parse_const<'a>(tokens: &Vec<Token<'a>>, pos: usize) -> (r: Result<(Statement<'a>, usize), Error<'a>>)
    requires
        well_terminated(tokens@),
        pos < tokens@.len(),
        tokens@[pos as int].kind == TokenKind::Const,
    ensures
        ends_at(r, stmt_end(kinds(tokens@), pos as int)),
        r matches Ok((s, _)) ==> s is Const,
        r matches Ok((s, end)) ==> parsed(tokens@, pos as int, end as int, stmt_toks(s)) && stmt_ok(s),
        r matches Err(e) ==> error_from(tokens@, pos as int, e),
{
    let const_ = tokens[pos];
    let len = tokens.len();
    assert(pos + 1 < len);
    let (field, p) = match parse_field(tokens, pos + 1) {
        Ok(x) => x,
        Err(e) => {
            proof {
                lemma_error_from(tokens@, pos as int, pos + 1, e);
            }
            return Err(e);
        },
    };
    let (assign, q) = match expect(tokens, p, TokenKind::Assign) {
        Ok(x) => x,
        Err(e) => {
            assert(e == Error::UnexpectedToken(tokens@[p as int]));
            return Err(e);
        },
    };
    let (expression, l) = match parse_expression(tokens, q) {
        Ok(x) => x,
        Err(e) => {
            proof {
                lemma_error_from(tokens@, pos as int, q as int, e);
            }
            return Err(e);
        },
    };
    let (semi_colon, end) = match expect(tokens, l, TokenKind::SemiColon) {
        Ok(x) => x,
        Err(e) => {
            assert(e == Error::UnexpectedToken(tokens@[l as int]));
            return Err(e);
        },
    };
    let st = Statement::Const(Box::new(Const { const_, field, assign, expression, semi_colon }));
    proof {
        lemma_cat(tokens@, pos as int, pos as int, pos + 1);
        lemma_cat(tokens@, pos as int, pos + 1, p as int);
        lemma_cat(tokens@, pos as int, p as int, q as int);
        lemma_cat(tokens@, pos as int, q as int, l as int);
        lemma_cat(tokens@, pos as int, l as int, end as int);
        assert(stmt_toks(st) =~= tokens@.subrange(pos as int, end as int));
    }
    Ok((st, end))
}

/// `let <field> = E [;]`
#[verifier::spinoff_prover]
fn parse_let<'a>(tokens: &Vec<Token<'a>>, pos: usize) -> (r: Result<(Statement<'a>, usize), Error<'a>>)
    requires
        well_terminated(tokens@),
        pos < tokens@.len(),
        tokens@[pos as int].kind == TokenKind::Let,
    ensures
        ends_at(r, stmt_end(kinds(tokens@), pos as int)),
        r matches Ok((s, _)) ==> s is Let,
        r matches Ok((s, end)) ==> parsed(tokens@, pos as int, end as int, stmt_toks(s)) && stmt_ok(s),
        r matches Err(e) ==> error_from(tokens@, pos as int, e),
{
    let let_ = tokens[pos];
    let len = tokens.len();
    assert(pos + 1 < len);
    let (field, p) = match parse_field(tokens, pos + 1) {
        Ok(x) => x,
        Err(e) => {
            proof {
                lemma_error_from(tokens@, pos as int, pos + 1, e);
            }
            return Err(e);
        },
    };
    let (assign, q) = match expect(tokens, p, TokenKind::Assign) {
        Ok(x) => x,
        Err(e) => {
            assert(e == Error::UnexpectedToken(tokens@[p as int]));
            return Err(e);
        },
    };
    let (expression, l) = match parse_expression(tokens, q) {
        Ok(x) => x,
        Err(e) => {
            proof {
                lemma_error_from(tokens@, pos as int, q as int, e);
            }
            return Err(e);
        },
    };
    let (semi_colon, end) = accept(tokens, l, TokenKind::SemiColon);
    let st = Statement::Let(Box::new(Let { let_, field, assign, expression, semi_colon }));
    proof {
        lemma_cat(tokens@, pos as int, pos as int, pos + 1);
        lemma_cat(tokens@, pos as int, pos + 1, p as int);
        lemma_cat(tokens@, pos as int, p as int, q as int);
        lemma_cat(tokens@, pos as int, q as int, l as int);
        lemma_cat(tokens@, pos as int, l as int, end as int);
        assert(stmt_toks(st) =~= tokens@.subrange(pos as int, end as int));
    }
    Ok((st, end))
}

/// `E ;`
#[verifier::spinoff_prover]
fn parse_inline<'a>(tokens: &Vec<Token<'a>>, pos: usize) -> (r: Result<(Statement<'a>, usize), Error<'a>>)
    requires
        !is_statement_keyword(tokens@[pos as int].kind),
        well_terminated(tokens@),
        pos < tokens@.len(),
    ensures
        ends_at(r, stmt_end(kinds(tokens@), pos as int)),
        r matches Ok((s, _)) ==> s is Inline,
        r matches Ok((s, end)) ==> parsed(tokens@, pos as int, end as int, stmt_toks(s)) && stmt_ok(s),
        r matches Err(e) ==> error_from(tokens@, pos as int, e),
{
    let (inner, p) = match parse_expression(tokens, pos) {
        Ok(x) => x,
        Err(e) => return Err(e),
    };
    let (semi_colon, end) = match expect(tokens, p, TokenKind::SemiColon) {
        Ok(x) => x,
        Err(e) => {
            assert(e == Error::UnexpectedToken(tokens@[p as int]));
            return Err(e);
        },
    };
    let st = Statement::Inline(Box::new(Inline { inner, semi_colon }));
    proof {
        lemma_cat(tokens@, pos as int, p as int, end as int);
        assert(stmt_toks(st) =~= tokens@.subrange(pos as int, end as int));
    }
    Ok((st, end))
}

/// `mod <ident> { S* }`
#[verifier::rlimit(40)]
#[verifier::spinoff_prover]
fn parse_mod<'a>(tokens: &Vec<Token<'a>>, pos: usize) -> (r: Result<(Statement<'a>, usize), Error<'a>>)
    requires
        well_terminated(tokens@),
        pos < tokens@.len(),
        tokens@[pos as int].kind == TokenKind::Mod,
    ensures
        ends_at(r, stmt_end(kinds(tokens@), pos as int)),
        r matches Ok((s, _)) ==> s is Mod,
        r matches Ok((s, end)) ==> parsed(tokens@, pos as int, end as int, stmt_toks(s)) && stmt_ok(s),
        r matches Err(e) ==> error_from(tokens@, pos as int, e),
    decreases tokens@.len() - pos, 1int,
{
    let mod_ = tokens[pos];
    let len = tokens.len();
    assert(pos + 1 < len);
    let (ident, p) = match expect(tokens, pos + 1, TokenKind::Ident) {
        Ok(x) => x,
        Err(e) => {
            assert(e == Error::UnexpectedToken(tokens@[pos + 1]));
            return Err(e);
        },
    };
    let (left_bracket, inner, right_bracket, end) = match parse_block(tokens, p) {
        Ok(x) => x,
        Err(e) => {
            proof {
                lemma_error_from(tokens@, pos as int, p as int, e);
            }
            return Err(e);
        },
    };
    let st = Statement::Mod(
        Box::new(Module { mod_, ident: ModIdent(ident), left_bracket, inner, right_bracket }),
    );
    proof {
        lemma_cat(tokens@, pos as int, p as int, end as int);
        assert(tokens@.subrange(pos as int, p as int) =~= seq![mod_, ident]);
        assert(stmt_toks(st) =~= tokens@.subrange(pos as int, end as int));
    }
    Ok((st, end))
}

/// `loop { S* }`
#[verifier::spinoff_prover]
fn parse_loop<'a>(tokens: &Vec<Token<'a>>, pos: usize) -> (r: Result<(Statement<'a>, usize), Error<'a>>)
    requires
        well_terminated(tokens@),
        pos < tokens@.len(),
        tokens@[pos as int].kind == TokenKind::Loop,
    ensures
        ends_at(r, stmt_end(kinds(tokens@), pos as int)),
        r matches Ok((s, _)) ==> s is Loop,
        r matches Ok((s, end)) ==> parsed(tokens@, pos as int, end as int, stmt_toks(s)) && stmt_ok(s),
        r matches Err(e) ==> error_from(tokens@, pos as int, e),
    decreases tokens@.len() - pos, 1int,
{
    let loop_ = tokens[pos];
    let len = tokens.len();
    assert(pos + 1 < len);
    let (left_bracket, inner, right_bracket, end) = match parse_block(tokens, pos + 1) {
        Ok(x) => x,
        Err(e) => {
            proof {
                lemma_error_from(tokens@, pos as int, (pos + 1) as int, e);
            }
            return Err(e);
        },
    };
    let st = Statement::Loop(Box::new(Loop { loop_, left_bracket, inner, right_bracket }));
    proof {
        lemma_cat(tokens@, pos as int, pos + 1, end as int);
        lemma_cat(tokens@, pos as int, pos as int, pos + 1);
        assert(stmt_toks(st) =~= tokens@.subrange(pos as int, end as int));
    }
    Ok((st, end))
}

/// `{ S* }`
#[verifier::spinoff_prover]
fn parse_scope<'a>(tokens: &Vec<Token<'a>>, pos: usize) -> (r: Result<(Statement<'a>, usize), Error<'a>>)
    requires
        well_terminated(tokens@),
        pos < tokens@.len(),
        tokens@[pos as int].kind == TokenKind::LeftBracket,
    ensures
        ends_at(r, stmt_end(kinds(tokens@), pos as int)),
        r matches Ok((s, _)) ==> s is Scope,
        r matches Ok((s, end)) ==> parsed(tokens@, pos as int, end as int, stmt_toks(s)) && stmt_ok(s),
        r matches Err(e) ==> error_from(tokens@, pos as int, e),
    decreases tokens@.len() - pos, 1int,
{
    let (left_bracket, inner, right_bracket, end) = match parse_block(tokens, pos) {
        Ok(x) => x,
        Err(e) => {
            proof {
                lemma_error_from(tokens@, pos as int, pos as int, e);
            }
            return Err(e);
        },
    };
    let st = Statement::Scope(Box::new(Scope { left_bracket, inner, right_bracket }));
    proof {
        assert(stmt_toks(st) =~= tokens@.subrange(pos as int, end as int));
    }
    Ok((st, end))
}

/// `for <field> in E .. [=] [+] E { S* }`
#[verifier::spinoff_prover]
fn parse_for<'a>(tokens: &Vec<Token<'a>>, pos: usize) -> (r: Result<(Statement<'a>, usize), Error<'a>>)
    requires
        well_terminated(tokens@),
        pos < tokens@.len(),
        tokens@[pos as int].kind == TokenKind::For,
    ensures
        ends_at(r, stmt_end(kinds(tokens@), pos as int)),
        r matches Ok((s, _)) ==> s is For,
        r matches Ok((s, end)) ==> parsed(tokens@, pos as int, end as int, stmt_toks(s)) && stmt_ok(s),
        r matches Err(e) ==> error_from(tokens@, pos as int, e),
    decreases tokens@.len() - pos, 1int,
{
    let for_ = tokens[pos];
    let len = tokens.len();
    assert(pos + 1 < len);
    let (field, p) = match parse_field(tokens, pos + 1) {
        Ok(x) => x,
        Err(e) => {
            proof {
                lemma_error_from(tokens@, pos as int, pos + 1, e);
            }
            return Err(e);
        },
    };
    let (in_, q) = match expect(tokens, p, TokenKind::In) {
        Ok(x) => x,
        Err(e) => {
            assert(e == Error::UnexpectedToken(tokens@[p as int]));
            return Err(e);
        },
    };
    let (range, l) = match parse_range(tokens, q) {
        Ok(x) => x,
        Err(e) => {
            proof {
                lemma_error_from(tokens@, pos as int, q as int, e);
            }
            return Err(e);
        },
    };
    let (left_bracket, inner, right_bracket, end) = match parse_block(tokens, l) {
        Ok(x) => x,
        Err(e) => {
            proof {
                lemma_error_from(tokens@, pos as int, l as int, e);
            }
            return Err(e);
        },
    };
    let st = Statement::For(
        Box::new(For { for_, field, in_, range, left_bracket, inner, right_bracket }),
    );
    proof {
        lemma_cat(tokens@, pos as int, pos as int, pos + 1);
        lemma_cat(tokens@, pos as int, pos + 1, p as int);
        lemma_cat(tokens@, pos as int, p as int, q as int);
        lemma_cat(tokens@, pos as int, q as int, l as int);
        lemma_cat(tokens@, pos as int, l as int, end as int);
        assert(stmt_toks(st) =~= tokens@.subrange(pos as int, end as int));
    }
    Ok((st, end))
}

/// `E .. [=] [+] E`
#[verifier::spinoff_prover]
fn parse_range<'a>(tokens: &Vec<Token<'a>>, pos: usize) -> (r: Result<(Range<'a>, usize), Error<'a>>)
    requires
        well_terminated(tokens@),
        pos < tokens@.len(),
    ensures
        ends_at(r, range_end(kinds(tokens@), pos as int)),
        r matches Ok((g, end)) ==> parsed(tokens@, pos as int, end as int, range_toks(g)) && precedence_ok(g.left) && precedence_ok(g.right),
        r matches Err(e) ==> error_from(tokens@, pos as int, e),
{
    let (left, p) = match parse_expression(tokens, pos) {
        Ok(x) => x,
        Err(e) => return Err(e),
    };
    let (dot_dot, q) = match expect(tokens, p, TokenKind::DotDot) {
        Ok(x) => x,
        Err(e) => {
            assert(e == Error::UnexpectedToken(tokens@[p as int]));
            return Err(e);
        },
    };
    let (eq, a) = accept(tokens, q, TokenKind::Assign);
    let (plus, b) = accept(tokens, a, TokenKind::Plus);
    let (right, end) = match parse_expression(tokens, b) {
        Ok(x) => x,
        Err(e) => {
            proof {
                lemma_error_from(tokens@, pos as int, b as int, e);
            }
            return Err(e);
        },
    };
    let range = Range { left, dot_dot, eq, plus, right };
    proof {
        lemma_cat(tokens@, pos as int, p as int, q as int);
        lemma_cat(tokens@, pos as int, q as int, a as int);
        lemma_cat(tokens@, pos as int, a as int, b as int);
        lemma_cat(tokens@, pos as int, b as int, end as int);
        assert(range_toks(range) =~= tokens@.subrange(pos as int, end as int));
    }
    Ok((range, end))
}

/// `fn <ident> [( F )] [T] { S* }`
#[verifier::rlimit(100)]
#[verifier::spinoff_prover]
fn parse_fn<'a>(tokens: &Vec<Token<'a>>, pos: usize) -> (r: Result<(Statement<'a>, usize), Error<'a>>)
    requires
        well_terminated(tokens@),
        pos < tokens@.len(),
        tokens@[pos as int].kind == TokenKind::Fn,
    ensures
        ends_at(r, stmt_end(kinds(tokens@), pos as int)),
        r matches Ok((s, _)) ==> s is Fn,
        r matches Ok((s, end)) ==> parsed(tokens@, pos as int, end as int, stmt_toks(s)) && stmt_ok(s),
        r matches Err(e) ==> error_from(tokens@, pos as int, e),
    decreases tokens@.len() - pos, 1int,
{
    let fn_ = tokens[pos];
    let len = tokens.len();
    assert(pos + 1 < len);
    let (ident, p) = match expect(tokens, pos + 1, TokenKind::Ident) {
        Ok(x) => x,
        Err(e) => {
            assert(e == Error::UnexpectedToken(tokens@[pos + 1]));
            return Err(e);
        },
    };
    let (fn_args, q) = if tokens[p].kind == TokenKind::LeftPar {
        let left_par = tokens[p];
        assert(p + 1 < len);
        let (args, a) = match parse_field_groups(tokens, p + 1) {
            Ok(x) => x,
            Err(e) => {
                proof {
                    lemma_error_from(tokens@, pos as int, p + 1, e);
                }
                return Err(e);
            },
        };
        let (right_par, q) = match expect(tokens, a, TokenKind::RightPar) {
            Ok(x) => x,
            Err(e) => {
                assert(e == Error::UnexpectedToken(tokens@[a as int]));
                return Err(e);
            },
        };
        proof {
            lemma_cat(tokens@, p as int, p + 1, a as int);
            lemma_cat(tokens@, p as int, a as int, q as int);
            lemma_cat(tokens@, p as int, p as int, p + 1);
        }
        (Some(FnArgs { left_par, args, right_par }), q)
    } else {
        (None, p)
    };
    assert(tokens@.subrange(p as int, q as int) =~= match fn_args {
        Some(a) => seq![a.left_par] + groups_toks(a.args) + seq![a.right_par],
        None => Seq::<Token<'a>>::empty(),
    });
    let (type_, l) = if type_start(tokens[q].kind) {
        match parse_type(tokens, q) {
            Ok((t, l)) => (Some(t), l),
            Err(e) => {
                proof {
                    lemma_error_from(tokens@, pos as int, q as int, e);
                }
                return Err(e);
            },
        }
    } else {
        (None, q)
    };
    assert(tokens@.subrange(q as int, l as int) =~= match type_ {
        Some(t) => type_toks(t),
        None => Seq::<Token<'a>>::empty(),
    });
    let (left_bracket, inner, right_bracket, end) = match parse_block(tokens, l) {
        Ok(x) => x,
        Err(e) => {
            proof {
                lemma_error_from(tokens@, pos as int, l as int, e);
            }
            return Err(e);
        },
    };
    let st = Statement::Fn(
        Box::new(Function { fn_, ident, fn_args, type_, left_bracket, inner, right_bracket }),
    );
    proof {
        lemma_cat(tokens@, pos as int, p as int, q as int);
        lemma_cat(tokens@, pos as int, q as int, l as int);
        lemma_cat(tokens@, pos as int, l as int, end as int);
        assert(tokens@.subrange(pos as int, p as int) =~= seq![fn_, ident]);
        assert(stmt_toks(st) =~= tokens@.subrange(pos as int, end as int));
    }
    Ok((st, end))
}

/// `if E { S* } [else { S* }]`
#[verifier::rlimit(60)]
#[verifier::spinoff_prover]
fn parse_if<'a>(tokens: &Vec<Token<'a>>, pos: usize) -> (r: Result<(Statement<'a>, usize), Error<'a>>)
    requires
        well_terminated(tokens@),
        pos < tokens@.len(),
        tokens@[pos as int].kind == TokenKind::If,
    ensures
        ends_at(r, stmt_end(kinds(tokens@), pos as int)),
        r matches Ok((s, _)) ==> (s is If || s is IfElse),
        r matches Ok((s, end)) ==> parsed(tokens@, pos as int, end as int, stmt_toks(s)) && stmt_ok(s),
        r matches Err(e) ==> error_from(tokens@, pos as int, e),
    decreases tokens@.len() - pos, 1int,
{
    let if_ = tokens[pos];
    let len = tokens.len();
    assert(pos + 1 < len);
    let (expression, p) = match parse_expression(tokens, pos + 1) {
        Ok(x) => x,
        Err(e) => {
            proof {
                lemma_error_from(tokens@, pos as int, pos + 1, e);
            }
            return Err(e);
        },
    };
    let (left_bracket, inner, right_bracket, end) = match parse_block(tokens, p) {
        Ok(x) => x,
        Err(e) => {
            proof {
                lemma_error_from(tokens@, pos as int, p as int, e);
            }
            return Err(e);
        },
    };
    let node = If { if_, expression, left_bracket, inner, right_bracket };
    proof {
        lemma_cat(tokens@, pos as int, pos as int, pos + 1);
        lemma_cat(tokens@, pos as int, pos + 1, p as int);
        lemma_cat(tokens@, pos as int, p as int, end as int);
    }
    if tokens[end].kind == TokenKind::Else {
        let else_ = tokens[end];
        assert(end + 1 < len);
        let (lb, else_inner, rb, end2) = match parse_block(tokens, end + 1) {
            Ok(x) => x,
            Err(e) => {
                proof {
                    lemma_error_from(tokens@, pos as int, end + 1, e);
                }
                return Err(e);
            },
        };
        let st = Statement::IfElse(
            Box::new(
                IfElse {
                    if_: node,
                    else_: Else { else_, left_bracket: lb, inner: else_inner, right_bracket: rb },
                },
            ),
        );
        proof {
            lemma_cat(tokens@, pos as int, end as int, end + 1);
            lemma_cat(tokens@, pos as int, end + 1, end2 as int);
            assert(stmt_toks(st) =~= tokens@.subrange(pos as int, end2 as int));
        }
        Ok((st, end2))
    } else {
        let st = Statement::If(Box::new(node));
        assert(stmt_toks(st) =~= tokens@.subrange(pos as int, end as int));
        Ok((st, end))
    }
}

/// A program: statements up to the end of file.
pub fn parse_tokens<'a>(tokens: &Vec<Token<'a>>) -> (r: Result<Ast<'a>, Error<'a>>)
    requires
        eof_terminated(tokens@),
    ensures
        r is Ok <==> program_parses(kinds(tokens@)),
        r matches Ok(a) ==> ast_toks(a) == tokens@ && stmts_ok(a.inner@),
        r matches Err(e) ==> error_from(tokens@, 0, e),
{
    let (inner, p) = match parse_statements(tokens, 0) {
        Ok(x) => x,
        Err(e) => return Err(e),
    };
    let eof = tokens[p];
    if eof.kind != TokenKind::Eof {
        return Err(Error::UnexpectedToken(eof));
    }
    let len = tokens.len();
    assert(p + 1 == len) by {
        if p + 1 < len {
            assert(tokens@[p as int].kind == TokenKind::Eof);
        }
    }
    let a = Ast { inner, eof };
    proof {
        lemma_cat(tokens@, 0, p as int, len as int);
        assert(tokens@.subrange(0, len as int) =~= tokens@);
        assert(ast_toks(a) =~= tokens@);
    }
    Ok(a)
}


// public interface

/// Syntax nodes that can be read from a token sequence.
pub trait Grammar<'a>: Sized {
    /// Tokens of the node, in source order.
    spec fn node_toks(&self) -> Seq<Token<'a>>;

    /// Read a node starting at token `pos`; returns it with the position of
    /// the first token after it.
    fn parse(tokens: &Vec<Token<'a>>, pos: usize) -> (r: Result<(Self, usize), Error<'a>>)
        requires
            well_terminated(tokens@),
            pos < tokens@.len(),
        ensures
            r matches Ok((n, end)) ==> parsed(tokens@, pos as int, end as int, n.node_toks()),
            r matches Err(e) ==> error_from(tokens@, pos as int, e),
    ;
}

impl<'a> Grammar<'a> for Expression<'a> {
    open spec fn node_toks(&self) -> Seq<Token<'a>> {
        expr_toks(*self)
    }

    fn parse(tokens: &Vec<Token<'a>>, pos: usize) -> (r: Result<(Self, usize), Error<'a>>) {
        parse_expression(tokens, pos)
    }
}

impl<'a> Grammar<'a> for Type<'a> {
    open spec fn node_toks(&self) -> Seq<Token<'a>> {
        type_toks(*self)
    }

    fn parse(tokens: &Vec<Token<'a>>, pos: usize) -> (r: Result<(Self, usize), Error<'a>>) {
        parse_type(tokens, pos)
    }
}

impl<'a> Grammar<'a> for Statement<'a> {
    open spec fn node_toks(&self) -> Seq<Token<'a>> {
        stmt_toks(*self)
    }

    fn parse(tokens: &Vec<Token<'a>>, pos: usize) -> (r: Result<(Self, usize), Error<'a>>) {
        parse_statement(tokens, pos)
    }
}

impl<'a> Grammar<'a> for Path<'a> {
    open spec fn node_toks(&self) -> Seq<Token<'a>> {
        path_toks(*self)
    }

    fn parse(tokens: &Vec<Token<'a>>, pos: usize) -> (r: Result<(Self, usize), Error<'a>>) {
        parse_path(tokens, pos)
    }
}

impl<'a> Grammar<'a> for Field<'a> {
    open spec fn node_toks(&self) -> Seq<Token<'a>> {
        field_toks(*self)
    }

    fn parse(tokens: &Vec<Token<'a>>, pos: usize) -> (r: Result<(Self, usize), Error<'a>>) {
        parse_field(tokens, pos)
    }
}

/// Identifiers of a path, in order.
pub open spec fn path_idents<'a>(p: Path<'a>) -> Seq<Token<'a>> {
    seq![p.head] + p.tail@.map_values(|x: (Token<'a>, Token<'a>)| x.1)
}

impl<'a> Path<'a> {
    /// The identifiers of the path, in order.
    pub fn iter(&self) -> (r: Vec<Token<'a>>)
        ensures
            r@ == path_idents(*self),
    {
        let mut r: Vec<Token<'a>> = Vec::new();
        r.push(self.head);
        let mut i: usize = 0;
        while i < self.tail.len()
            invariant
                i <= self.tail@.len(),
                r@ == seq![self.head] + self.tail@.subrange(0, i as int).map_values(
                    |x: (Token<'a>, Token<'a>)| x.1,
                ),
            decreases self.tail.len() - i,
        {
            r.push(self.tail[i].1);
            i = i + 1;
            assert(r@ =~= seq![self.head] + self.tail@.subrange(0, i as int).map_values(
                |x: (Token<'a>, Token<'a>)| x.1,
            ));
        }
        assert(self.tail@.subrange(0, i as int) =~= self.tail@);
        r
    }

    /// Number of identifiers of the path.
    pub fn len(&self) -> (r: usize)
        requires
            self.tail@.len() < usize::MAX,
        ensures
            r == path_idents(*self).len(),
    {
        self.tail.len() + 1
    }

    /// Whether the path has no identifier, which never happens.
    pub fn is_empty(&self) -> (r: bool)
        ensures
            r == (path_idents(*self).len() == 0),
            !r,
    {
        false
    }

    /// Source region covered by the path.
    pub fn span(&self) -> (r: Span)
        ensures
            self.tail@.len() == 0 ==> r == self.head.span,
            self.tail@.len() > 0 ==> r.min == loc_min(self.head.span.min, self.tail@.last().1.span.min)
                && r.max == loc_max(self.head.span.max, self.tail@.last().1.span.max),
    {
        let n = self.tail.len();
        if n == 0 {
            self.head.span
        } else {
            union(&self.head.span, &self.tail[n - 1].1.span)
        }
    }
}

/// Parsing context.
///
/// The grammar is context free, so the context holds no symbol and every
/// path can name a type or a value.
pub struct Context {
    paths: Vec<Vec<u8>>,
}

impl Context {
    /// Number of symbols that the context defines.
    pub closed spec fn defined(&self) -> nat {
        self.paths@.len()
    }

    /// Whether `path` may name a type: always.
    pub fn is_type(&self, path: &Path) -> (r: bool)
        ensures
            r,
    {
        true
    }

    /// Whether `path` names a defined symbol: always.
    pub fn is_defined(&self, path: &Path) -> (r: bool)
        ensures
            r,
    {
        true
    }
}

/// Builder of parsing contexts.
#[derive(Default)]
pub struct ContextBuilder {}

impl ContextBuilder {
    /// An empty context.
    pub fn build(self) -> (r: Context)
        ensures
            r.defined() == 0,
    {
        Context { paths: Vec::new() }
    }
}

/// The program's tokens are exactly the tokens of `input`, in order.
pub open spec fn parsed_input<'a>(input: Seq<u8>, a: Ast<'a>) -> bool {
    &&& eof_terminated(ast_toks(a))
    &&& exists|ends: Seq<int>| lexes(input, ast_toks(a), ends)
}

/// The tokenizer stops `input` with the error `e`, or `e` is the end of the
/// input or one of the tokens of `input`.
pub open spec fn parse_error<'a>(input: Seq<u8>, e: Error<'a>) -> bool {
    ||| tokenize_error(input, e)
    ||| exists|toks: Seq<Token<'a>>, ends: Seq<int>|
        #![trigger lexes(input, toks, ends)]
        eof_terminated(toks) && lexes(input, toks, ends) && error_from(toks, 0, e)
}

/// Two readings of one input have the same token kinds.
proof fn lemma_same_kinds<'a>(s: Seq<u8>, t1: Seq<Token<'a>>, n1: Seq<int>, t2: Seq<Token<'a>>, n2: Seq<int>)
    requires
        lexes(s, t1, n1),
        lexes(s, t2, n2),
        eof_terminated(t1),
        eof_terminated(t2),
    ensures
        kinds(t1) == kinds(t2),
{
    lemma_tokens_determined(s, t1, n1, t2, n2);
    assert(kinds(t1) =~= kinds(t2)) by {
        assert forall|i: int| 0 <= i < t1.len() implies kinds(t1)[i] == kinds(t2)[i] by {
            assert(same_token(t1[i], t2[i]));
        }
    }
}

/// Parse a program: it succeeds exactly where the input reads as tokens that
/// form a program (see [`program_parses`]).
pub fn parse<'a>(input: &'a str) -> (r: Result<Ast<'a>, Error<'a>>)
    ensures
        r matches Ok(a) ==> parsed_input(input.spec_bytes(), a) && stmts_ok(a.inner@),
        r matches Err(e) ==> parse_error(input.spec_bytes(), e),
        r is Ok <==> (exists|toks: Seq<Token<'a>>, ends: Seq<int>|
            #![trigger lexes(input.spec_bytes(), toks, ends)]
            eof_terminated(toks) && lexes(input.spec_bytes(), toks, ends) && program_parses(kinds(toks))),
{
    let tokens = match tokenize(input) {
        Ok(t) => t,
        Err(e) => return Err(e),
    };
    let r = parse_tokens(&tokens);
    proof {
        let s = input.spec_bytes();
        let ends = choose|ends: Seq<int>| lexes(s, tokens@, ends);
        assert(lexes(s, tokens@, ends));
        if exists|toks: Seq<Token<'a>>, ends2: Seq<int>|
            #![trigger lexes(s, toks, ends2)]
            eof_terminated(toks) && lexes(s, toks, ends2) && program_parses(kinds(toks)) {
            let (toks, ends2) = choose|toks: Seq<Token<'a>>, ends2: Seq<int>|
                #![trigger lexes(s, toks, ends2)]
                eof_terminated(toks) && lexes(s, toks, ends2) && program_parses(kinds(toks));
            lemma_same_kinds(s, tokens@, ends, toks, ends2);
        }
    }
    r
}

/// Parse a program with a context.
pub fn parse_with_context<'a>(input: &'a str, context: &mut Context) -> (r: Result<Ast<'a>, Error<'a>>)
    ensures
        r matches Ok(a) ==> parsed_input(input.spec_bytes(), a) && stmts_ok(a.inner@),
        r matches Err(e) ==> parse_error(input.spec_bytes(), e),
        r is Ok <==> (exists|toks: Seq<Token<'a>>, ends: Seq<int>|
            #![trigger lexes(input.spec_bytes(), toks, ends)]
            eof_terminated(toks) && lexes(input.spec_bytes(), toks, ends) && program_parses(kinds(toks))),
        final(context).defined() == old(context).defined(),
{
    parse(input)
}

/// Parse one expression followed by the end of the input.
pub fn parse_expression_input<'a>(input: &'a str) -> (r: Result<Expression<'a>, Error<'a>>)
    ensures
        r matches Ok(e) ==> precedence_ok(e) && exists|t: Token<'a>, ends: Seq<int>|
            t.kind == TokenKind::Eof && lexes(input.spec_bytes(), expr_toks(e).push(t), ends),
        r matches Err(e) ==> parse_error(input.spec_bytes(), e),
        r is Ok <==> (exists|toks: Seq<Token<'a>>, ends: Seq<int>|
            #![trigger lexes(input.spec_bytes(), toks, ends)]
            eof_terminated(toks) && lexes(input.spec_bytes(), toks, ends) && expr_end(kinds(toks), 0) == Some(
                toks.len() - 1,
            )),
{
    let tokens = match tokenize(input) {
        Ok(t) => t,
        Err(e) => return Err(e),
    };
    let ghost s = input.spec_bytes();
    proof {
        let ends = choose|ends: Seq<int>| lexes(s, tokens@, ends);
        assert(lexes(s, tokens@, ends));
        if exists|toks: Seq<Token<'a>>, ends2: Seq<int>|
            #![trigger lexes(s, toks, ends2)]
            eof_terminated(toks) && lexes(s, toks, ends2) && expr_end(kinds(toks), 0) == Some(toks.len() - 1) {
            let (toks, ends2) = choose|toks: Seq<Token<'a>>, ends2: Seq<int>|
                #![trigger lexes(s, toks, ends2)]
                eof_terminated(toks) && lexes(s, toks, ends2) && expr_end(kinds(toks), 0) == Some(toks.len() - 1);
            lemma_same_kinds(s, tokens@, ends, toks, ends2);
            lemma_tokens_determined(s, tokens@, ends, toks, ends2);
        }
    }
    let (e, p) = match parse_expression(&tokens, 0) {
        Ok(x) => x,
        Err(e) => return Err(e),
    };
    let t = tokens[p];
    if t.kind != TokenKind::Eof {
        return Err(Error::UnexpectedToken(t));
    }
    proof {
        let len = tokens@.len();
        assert(p + 1 == len) by {
            if p + 1 < len {
                assert(tokens@[p as int].kind == TokenKind::Eof);
            }
        }
        assert(expr_toks(e).push(t) =~= tokens@);
    }
    Ok(e)
}

} // verus!
