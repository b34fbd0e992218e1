//! Token definitions and lexical analysis.
//!
//! [`Tokens`] runs the raw tokenizer with the language's keyword set and
//! classifies every keyword by its [`TokenKind`].
use crate::error::Error;
use crate::lex::raw::{
    cursor_at, find_quote, is_digit, is_kw_match, is_word, kw_view, lexed, skip_trivia, starts_comment, RawToken, bytes_eq,
};
use crate::span::Span;
use vstd::prelude::*;
use vstd::string::StringSliceAdditionalSpecFns;

pub mod raw;

verus! {

/// Kinds of tokens.
#[derive(Debug, Clone, Copy, PartialEq, Eq, Structural)]
pub enum TokenKind {
    /// `!!`
    BangBang,
    /// `..`
    DotDot,
    /// `::`
    Square,
    /// `+=`
    PlusAssign,
    /// `-=`
    MinusAssign,
    /// `*=`
    StarAssign,
    /// `/=`
    SlashAssign,
    /// `&=`
    AmpersandAssign,
    /// `|=`
    PipeAssign,
    /// `^=`
    CaretAssign,
    /// `<<`
    LessLess,
    /// `>>`
    GreatGreat,
    /// `==`
    Eq,
    /// `~=`
    TildeEq,
    /// `<=`
    LessEq,
    /// `>=`
    GreaterEq,
    /// `=`
    Assign,
    /// `.`
    Dot,
    /// `,`
    Comma,
    /// `:`
    Colon,
    /// `;`
    SemiColon,
    /// `{`
    LeftBracket,
    /// `}`
    RightBracket,
    /// `[`
    LeftSquare,
    /// `]`
    RightSquare,
    /// `(`
    LeftPar,
    /// `)`
    RightPar,
    /// `+`
    Plus,
    /// `-`
    Minus,
    /// `*`
    Star,
    /// `/`
    Slash,
    /// `&`
    Ampersand,
    /// `|`
    Pipe,
    /// `^`
    Caret,
    /// `~`
    Tilde,
    /// `@`
    At,
    /// `>`
    Greater,
    /// `<`
    Less,
    /// `mod`
    Mod,
    /// `union`
    Union,
    /// `struct`
    Struct,
    /// `mut`
    Mut,
    /// `in`
    In,
    /// `enum`
    Enum,
    /// `use`
    Use,
    /// `asm`
    Asm,
    /// `static`
    Static,
    /// `const`
    Const,
    /// `pub`
    Pub,
    /// `for`
    For,
    /// `loop`
    Loop,
    /// `let`
    Let,
    /// `fn`
    Fn,
    /// `if`
    If,
    /// `else`
    Else,
    /// `continue`
    Continue,
    /// `break`
    Break,
    /// `return`
    Return,
    /// `read`
    Read,
    /// `write`
    Write,
    /// `u8`
    U8,
    /// `i8`
    I8,
    /// `u16`
    U16,
    /// `i16`
    I16,
    /// `%a`
    A,
    /// `%f`
    F,
    /// `%af`
    AF,
    /// `%b`
    B,
    /// `%c`
    C,
    /// `%bc`
    BC,
    /// `%d`
    D,
    /// `%e`
    E,
    /// `%de`
    DE,
    /// `%h`
    H,
    /// `%l`
    L,
    /// `%hl`
    HL,
    /// `%sp`
    SP,
    /// `%pc`
    PC,
    /// `.nop`
    Nop,
    /// `.stop`
    Stop,
    /// `.halt`
    Halt,
    /// `.di`
    Di,
    /// `.ei`
    Ei,
    /// `.ld`
    Ld,
    /// `.ldh`
    Ldh,
    /// `.push`
    Push,
    /// `.pop`
    Pop,
    /// `.inc`
    Inc,
    /// `.dec`
    Dec,
    /// `.daa`
    Daa,
    /// `.scf`
    Scf,
    /// `.cpl`
    Cpl,
    /// `.ccf`
    Ccf,
    /// `.add`
    Add,
    /// `.adc`
    Adc,
    /// `.sub`
    Sub,
    /// `.sbc`
    Sbc,
    /// `.and`
    And,
    /// `.xor`
    Xor,
    /// `.or`
    Or,
    /// `.cp`
    Cp,
    /// Identifier.
    Ident,
    /// Literal.
    Lit,
    /// End of file.
    Eof,
}

/// The source text of a keyword kind (empty for identifiers, literals and end of file).
pub open spec fn keyword_text(k: TokenKind) -> Seq<u8> {
    match k {
        TokenKind::BangBang => seq![33u8, 33u8],
        TokenKind::DotDot => seq![46u8, 46u8],
        TokenKind::Square => seq![58u8, 58u8],
        TokenKind::PlusAssign => seq![43u8, 61u8],
        TokenKind::MinusAssign => seq![45u8, 61u8],
        TokenKind::StarAssign => seq![42u8, 61u8],
        TokenKind::SlashAssign => seq![47u8, 61u8],
        TokenKind::AmpersandAssign => seq![38u8, 61u8],
        TokenKind::PipeAssign => seq![124u8, 61u8],
        TokenKind::CaretAssign => seq![94u8, 61u8],
        TokenKind::LessLess => seq![60u8, 60u8],
        TokenKind::GreatGreat => seq![62u8, 62u8],
        TokenKind::Eq => seq![61u8, 61u8],
        TokenKind::TildeEq => seq![126u8, 61u8],
        TokenKind::LessEq => seq![60u8, 61u8],
        TokenKind::GreaterEq => seq![62u8, 61u8],
        TokenKind::Assign => seq![61u8],
        TokenKind::Dot => seq![46u8],
        TokenKind::Comma => seq![44u8],
        TokenKind::Colon => seq![58u8],
        TokenKind::SemiColon => seq![59u8],
        TokenKind::LeftBracket => seq![123u8],
        TokenKind::RightBracket => seq![125u8],
        TokenKind::LeftSquare => seq![91u8],
        TokenKind::RightSquare => seq![93u8],
        TokenKind::LeftPar => seq![40u8],
        TokenKind::RightPar => seq![41u8],
        TokenKind::Plus => seq![43u8],
        TokenKind::Minus => seq![45u8],
        TokenKind::Star => seq![42u8],
        TokenKind::Slash => seq![47u8],
        TokenKind::Ampersand => seq![38u8],
        TokenKind::Pipe => seq![124u8],
        TokenKind::Caret => seq![94u8],
        TokenKind::Tilde => seq![126u8],
        TokenKind::At => seq![64u8],
        TokenKind::Greater => seq![62u8],
        TokenKind::Less => seq![60u8],
        TokenKind::Mod => seq![109u8, 111u8, 100u8],
        TokenKind::Union => seq![117u8, 110u8, 105u8, 111u8, 110u8],
        TokenKind::Struct => seq![115u8, 116u8, 114u8, 117u8, 99u8, 116u8],
        TokenKind::Mut => seq![109u8, 117u8, 116u8],
        TokenKind::In => seq![105u8, 110u8],
        TokenKind::Enum => seq![101u8, 110u8, 117u8, 109u8],
        TokenKind::Use => seq![117u8, 115u8, 101u8],
        TokenKind::Asm => seq![97u8, 115u8, 109u8],
        TokenKind::Static => seq![115u8, 116u8, 97u8, 116u8, 105u8, 99u8],
        TokenKind::Const => seq![99u8, 111u8, 110u8, 115u8, 116u8],
        TokenKind::Pub => seq![112u8, 117u8, 98u8],
        TokenKind::For => seq![102u8, 111u8, 114u8],
        TokenKind::Loop => seq![108u8, 111u8, 111u8, 112u8],
        TokenKind::Let => seq![108u8, 101u8, 116u8],
        TokenKind::Fn => seq![102u8, 110u8],
        TokenKind::If => seq![105u8, 102u8],
        TokenKind::Else => seq![101u8, 108u8, 115u8, 101u8],
        TokenKind::Continue => seq![99u8, 111u8, 110u8, 116u8, 105u8, 110u8, 117u8, 101u8],
        TokenKind::Break => seq![98u8, 114u8, 101u8, 97u8, 107u8],
        TokenKind::Return => seq![114u8, 101u8, 116u8, 117u8, 114u8, 110u8],
        TokenKind::Read => seq![114u8, 101u8, 97u8, 100u8],
        TokenKind::Write => seq![119u8, 114u8, 105u8, 116u8, 101u8],
        TokenKind::U8 => seq![117u8, 56u8],
        TokenKind::I8 => seq![105u8, 56u8],
        TokenKind::U16 => seq![117u8, 49u8, 54u8],
        TokenKind::I16 => seq![105u8, 49u8, 54u8],
        TokenKind::A => seq![37u8, 97u8],
        TokenKind::F => seq![37u8, 102u8],
        TokenKind::AF => seq![37u8, 97u8, 102u8],
        TokenKind::B => seq![37u8, 98u8],
        TokenKind::C => seq![37u8, 99u8],
        TokenKind::BC => seq![37u8, 98u8, 99u8],
        TokenKind::D => seq![37u8, 100u8],
        TokenKind::E => seq![37u8, 101u8],
        TokenKind::DE => seq![37u8, 100u8, 101u8],
        TokenKind::H => seq![37u8, 104u8],
        TokenKind::L => seq![37u8, 108u8],
        TokenKind::HL => seq![37u8, 104u8, 108u8],
        TokenKind::SP => seq![37u8, 115u8, 112u8],
        TokenKind::PC => seq![37u8, 112u8, 99u8],
        TokenKind::Nop => seq![46u8, 110u8, 111u8, 112u8],
        TokenKind::Stop => seq![46u8, 115u8, 116u8, 111u8, 112u8],
        TokenKind::Halt => seq![46u8, 104u8, 97u8, 108u8, 116u8],
        TokenKind::Di => seq![46u8, 100u8, 105u8],
        TokenKind::Ei => seq![46u8, 101u8, 105u8],
        TokenKind::Ld => seq![46u8, 108u8, 100u8],
        TokenKind::Ldh => seq![46u8, 108u8, 100u8, 104u8],
        TokenKind::Push => seq![46u8, 112u8, 117u8, 115u8, 104u8],
        TokenKind::Pop => seq![46u8, 112u8, 111u8, 112u8],
        TokenKind::Inc => seq![46u8, 105u8, 110u8, 99u8],
        TokenKind::Dec => seq![46u8, 100u8, 101u8, 99u8],
        TokenKind::Daa => seq![46u8, 100u8, 97u8, 97u8],
        TokenKind::Scf => seq![46u8, 115u8, 99u8, 102u8],
        TokenKind::Cpl => seq![46u8, 99u8, 112u8, 108u8],
        TokenKind::Ccf => seq![46u8, 99u8, 99u8, 102u8],
        TokenKind::Add => seq![46u8, 97u8, 100u8, 100u8],
        TokenKind::Adc => seq![46u8, 97u8, 100u8, 99u8],
        TokenKind::Sub => seq![46u8, 115u8, 117u8, 98u8],
        TokenKind::Sbc => seq![46u8, 115u8, 98u8, 99u8],
        TokenKind::And => seq![46u8, 97u8, 110u8, 100u8],
        TokenKind::Xor => seq![46u8, 120u8, 111u8, 114u8],
        TokenKind::Or => seq![46u8, 111u8, 114u8],
        TokenKind::Cp => seq![46u8, 99u8, 112u8],
        _ => Seq::empty(),
    }
}

/// Keyword kinds, in the order in which they are looked up.
pub open spec fn keyword_kinds() -> Seq<TokenKind> {
    seq![
        TokenKind::BangBang,
        TokenKind::DotDot,
        TokenKind::Square,
        TokenKind::PlusAssign,
        TokenKind::MinusAssign,
        TokenKind::StarAssign,
        TokenKind::SlashAssign,
        TokenKind::AmpersandAssign,
        TokenKind::PipeAssign,
        TokenKind::CaretAssign,
        TokenKind::LessLess,
        TokenKind::GreatGreat,
        TokenKind::Eq,
        TokenKind::TildeEq,
        TokenKind::LessEq,
        TokenKind::GreaterEq,
        TokenKind::Assign,
        TokenKind::Dot,
        TokenKind::Comma,
        TokenKind::Colon,
        TokenKind::SemiColon,
        TokenKind::LeftBracket,
        TokenKind::RightBracket,
        TokenKind::LeftSquare,
        TokenKind::RightSquare,
        TokenKind::LeftPar,
        TokenKind::RightPar,
        TokenKind::Plus,
        TokenKind::Minus,
        TokenKind::Star,
        TokenKind::Slash,
        TokenKind::Ampersand,
        TokenKind::Pipe,
        TokenKind::Caret,
        TokenKind::Tilde,
        TokenKind::At,
        TokenKind::Greater,
        TokenKind::Less,
        TokenKind::Mod,
        TokenKind::Union,
        TokenKind::Struct,
        TokenKind::Mut,
        TokenKind::In,
        TokenKind::Enum,
        TokenKind::Use,
        TokenKind::Asm,
        TokenKind::Static,
        TokenKind::Const,
        TokenKind::Pub,
        TokenKind::For,
        TokenKind::Loop,
        TokenKind::Let,
        TokenKind::Fn,
        TokenKind::If,
        TokenKind::Else,
        TokenKind::Continue,
        TokenKind::Break,
        TokenKind::Return,
        TokenKind::Read,
        TokenKind::Write,
        TokenKind::U8,
        TokenKind::I8,
        TokenKind::U16,
        TokenKind::I16,
        TokenKind::A,
        TokenKind::F,
        TokenKind::AF,
        TokenKind::B,
        TokenKind::C,
        TokenKind::BC,
        TokenKind::D,
        TokenKind::E,
        TokenKind::DE,
        TokenKind::H,
        TokenKind::L,
        TokenKind::HL,
        TokenKind::SP,
        TokenKind::PC,
        TokenKind::Nop,
        TokenKind::Stop,
        TokenKind::Halt,
        TokenKind::Di,
        TokenKind::Ei,
        TokenKind::Ld,
        TokenKind::Ldh,
        TokenKind::Push,
        TokenKind::Pop,
        TokenKind::Inc,
        TokenKind::Dec,
        TokenKind::Daa,
        TokenKind::Scf,
        TokenKind::Cpl,
        TokenKind::Ccf,
        TokenKind::Add,
        TokenKind::Adc,
        TokenKind::Sub,
        TokenKind::Sbc,
        TokenKind::And,
        TokenKind::Xor,
        TokenKind::Or,
        TokenKind::Cp,
    ]
}

/// The source text of a keyword kind.
fn keyword_bytes(k: TokenKind) -> (r: Vec<u8>)
    ensures
        r@ == keyword_text(k),
{
    match k {
        TokenKind::BangBang => vec![33u8, 33u8],
        TokenKind::DotDot => vec![46u8, 46u8],
        TokenKind::Square => vec![58u8, 58u8],
        TokenKind::PlusAssign => vec![43u8, 61u8],
        TokenKind::MinusAssign => vec![45u8, 61u8],
        TokenKind::StarAssign => vec![42u8, 61u8],
        TokenKind::SlashAssign => vec![47u8, 61u8],
        TokenKind::AmpersandAssign => vec![38u8, 61u8],
        TokenKind::PipeAssign => vec![124u8, 61u8],
        TokenKind::CaretAssign => vec![94u8, 61u8],
        TokenKind::LessLess => vec![60u8, 60u8],
        TokenKind::GreatGreat => vec![62u8, 62u8],
        TokenKind::Eq => vec![61u8, 61u8],
        TokenKind::TildeEq => vec![126u8, 61u8],
        TokenKind::LessEq => vec![60u8, 61u8],
        TokenKind::GreaterEq => vec![62u8, 61u8],
        TokenKind::Assign => vec![61u8],
        TokenKind::Dot => vec![46u8],
        TokenKind::Comma => vec![44u8],
        TokenKind::Colon => vec![58u8],
        TokenKind::SemiColon => vec![59u8],
        TokenKind::LeftBracket => vec![123u8],
        TokenKind::RightBracket => vec![125u8],
        TokenKind::LeftSquare => vec![91u8],
        TokenKind::RightSquare => vec![93u8],
        TokenKind::LeftPar => vec![40u8],
        TokenKind::RightPar => vec![41u8],
        TokenKind::Plus => vec![43u8],
        TokenKind::Minus => vec![45u8],
        TokenKind::Star => vec![42u8],
        TokenKind::Slash => vec![47u8],
        TokenKind::Ampersand => vec![38u8],
        TokenKind::Pipe => vec![124u8],
        TokenKind::Caret => vec![94u8],
        TokenKind::Tilde => vec![126u8],
        TokenKind::At => vec![64u8],
        TokenKind::Greater => vec![62u8],
        TokenKind::Less => vec![60u8],
        TokenKind::Mod => vec![109u8, 111u8, 100u8],
        TokenKind::Union => vec![117u8, 110u8, 105u8, 111u8, 110u8],
        TokenKind::Struct => vec![115u8, 116u8, 114u8, 117u8, 99u8, 116u8],
        TokenKind::Mut => vec![109u8, 117u8, 116u8],
        TokenKind::In => vec![105u8, 110u8],
        TokenKind::Enum => vec![101u8, 110u8, 117u8, 109u8],
        TokenKind::Use => vec![117u8, 115u8, 101u8],
        TokenKind::Asm => vec![97u8, 115u8, 109u8],
        TokenKind::Static => vec![115u8, 116u8, 97u8, 116u8, 105u8, 99u8],
        TokenKind::Const => vec![99u8, 111u8, 110u8, 115u8, 116u8],
        TokenKind::Pub => vec![112u8, 117u8, 98u8],
        TokenKind::For => vec![102u8, 111u8, 114u8],
        TokenKind::Loop => vec![108u8, 111u8, 111u8, 112u8],
        TokenKind::Let => vec![108u8, 101u8, 116u8],
        TokenKind::Fn => vec![102u8, 110u8],
        TokenKind::If => vec![105u8, 102u8],
        TokenKind::Else => vec![101u8, 108u8, 115u8, 101u8],
        TokenKind::Continue => vec![99u8, 111u8, 110u8, 116u8, 105u8, 110u8, 117u8, 101u8],
        TokenKind::Break => vec![98u8, 114u8, 101u8, 97u8, 107u8],
        TokenKind::Return => vec![114u8, 101u8, 116u8, 117u8, 114u8, 110u8],
        TokenKind::Read => vec![114u8, 101u8, 97u8, 100u8],
        TokenKind::Write => vec![119u8, 114u8, 105u8, 116u8, 101u8],
        TokenKind::U8 => vec![117u8, 56u8],
        TokenKind::I8 => vec![105u8, 56u8],
        TokenKind::U16 => vec![117u8, 49u8, 54u8],
        TokenKind::I16 => vec![105u8, 49u8, 54u8],
        TokenKind::A => vec![37u8, 97u8],
        TokenKind::F => vec![37u8, 102u8],
        TokenKind::AF => vec![37u8, 97u8, 102u8],
        TokenKind::B => vec![37u8, 98u8],
        TokenKind::C => vec![37u8, 99u8],
        TokenKind::BC => vec![37u8, 98u8, 99u8],
        TokenKind::D => vec![37u8, 100u8],
        TokenKind::E => vec![37u8, 101u8],
        TokenKind::DE => vec![37u8, 100u8, 101u8],
        TokenKind::H => vec![37u8, 104u8],
        TokenKind::L => vec![37u8, 108u8],
        TokenKind::HL => vec![37u8, 104u8, 108u8],
        TokenKind::SP => vec![37u8, 115u8, 112u8],
        TokenKind::PC => vec![37u8, 112u8, 99u8],
        TokenKind::Nop => vec![46u8, 110u8, 111u8, 112u8],
        TokenKind::Stop => vec![46u8, 115u8, 116u8, 111u8, 112u8],
        TokenKind::Halt => vec![46u8, 104u8, 97u8, 108u8, 116u8],
        TokenKind::Di => vec![46u8, 100u8, 105u8],
        TokenKind::Ei => vec![46u8, 101u8, 105u8],
        TokenKind::Ld => vec![46u8, 108u8, 100u8],
        TokenKind::Ldh => vec![46u8, 108u8, 100u8, 104u8],
        TokenKind::Push => vec![46u8, 112u8, 117u8, 115u8, 104u8],
        TokenKind::Pop => vec![46u8, 112u8, 111u8, 112u8],
        TokenKind::Inc => vec![46u8, 105u8, 110u8, 99u8],
        TokenKind::Dec => vec![46u8, 100u8, 101u8, 99u8],
        TokenKind::Daa => vec![46u8, 100u8, 97u8, 97u8],
        TokenKind::Scf => vec![46u8, 115u8, 99u8, 102u8],
        TokenKind::Cpl => vec![46u8, 99u8, 112u8, 108u8],
        TokenKind::Ccf => vec![46u8, 99u8, 99u8, 102u8],
        TokenKind::Add => vec![46u8, 97u8, 100u8, 100u8],
        TokenKind::Adc => vec![46u8, 97u8, 100u8, 99u8],
        TokenKind::Sub => vec![46u8, 115u8, 117u8, 98u8],
        TokenKind::Sbc => vec![46u8, 115u8, 98u8, 99u8],
        TokenKind::And => vec![46u8, 97u8, 110u8, 100u8],
        TokenKind::Xor => vec![46u8, 120u8, 111u8, 114u8],
        TokenKind::Or => vec![46u8, 111u8, 114u8],
        TokenKind::Cp => vec![46u8, 99u8, 112u8],
        _ => Vec::new(),
    }
}

/// Keyword kinds, in lookup order.
fn keyword_kinds_vec() -> (r: Vec<TokenKind>)
    ensures
        r@ == keyword_kinds(),
{
    vec![
        TokenKind::BangBang,
        TokenKind::DotDot,
        TokenKind::Square,
        TokenKind::PlusAssign,
        TokenKind::MinusAssign,
        TokenKind::StarAssign,
        TokenKind::SlashAssign,
        TokenKind::AmpersandAssign,
        TokenKind::PipeAssign,
        TokenKind::CaretAssign,
        TokenKind::LessLess,
        TokenKind::GreatGreat,
        TokenKind::Eq,
        TokenKind::TildeEq,
        TokenKind::LessEq,
        TokenKind::GreaterEq,
        TokenKind::Assign,
        TokenKind::Dot,
        TokenKind::Comma,
        TokenKind::Colon,
        TokenKind::SemiColon,
        TokenKind::LeftBracket,
        TokenKind::RightBracket,
        TokenKind::LeftSquare,
        TokenKind::RightSquare,
        TokenKind::LeftPar,
        TokenKind::RightPar,
        TokenKind::Plus,
        TokenKind::Minus,
        TokenKind::Star,
        TokenKind::Slash,
        TokenKind::Ampersand,
        TokenKind::Pipe,
        TokenKind::Caret,
        TokenKind::Tilde,
        TokenKind::At,
        TokenKind::Greater,
        TokenKind::Less,
        TokenKind::Mod,
        TokenKind::Union,
        TokenKind::Struct,
        TokenKind::Mut,
        TokenKind::In,
        TokenKind::Enum,
        TokenKind::Use,
        TokenKind::Asm,
        TokenKind::Static,
        TokenKind::Const,
        TokenKind::Pub,
        TokenKind::For,
        TokenKind::Loop,
        TokenKind::Let,
        TokenKind::Fn,
        TokenKind::If,
        TokenKind::Else,
        TokenKind::Continue,
        TokenKind::Break,
        TokenKind::Return,
        TokenKind::Read,
        TokenKind::Write,
        TokenKind::U8,
        TokenKind::I8,
        TokenKind::U16,
        TokenKind::I16,
        TokenKind::A,
        TokenKind::F,
        TokenKind::AF,
        TokenKind::B,
        TokenKind::C,
        TokenKind::BC,
        TokenKind::D,
        TokenKind::E,
        TokenKind::DE,
        TokenKind::H,
        TokenKind::L,
        TokenKind::HL,
        TokenKind::SP,
        TokenKind::PC,
        TokenKind::Nop,
        TokenKind::Stop,
        TokenKind::Halt,
        TokenKind::Di,
        TokenKind::Ei,
        TokenKind::Ld,
        TokenKind::Ldh,
        TokenKind::Push,
        TokenKind::Pop,
        TokenKind::Inc,
        TokenKind::Dec,
        TokenKind::Daa,
        TokenKind::Scf,
        TokenKind::Cpl,
        TokenKind::Ccf,
        TokenKind::Add,
        TokenKind::Adc,
        TokenKind::Sub,
        TokenKind::Sbc,
        TokenKind::And,
        TokenKind::Xor,
        TokenKind::Or,
        TokenKind::Cp,
    ]
}


/// Lookup of the keyword kind whose text is `w`, from index `i` of
/// [`keyword_kinds`] on.
pub open spec fn kind_from(w: Seq<u8>, i: int) -> Option<TokenKind>
    decreases keyword_kinds().len() - i,
{
    if i < 0 || i >= keyword_kinds().len() {
        None
    } else if keyword_text(keyword_kinds()[i]) == w {
        Some(keyword_kinds()[i])
    } else {
        kind_from(w, i + 1)
    }
}

/// The kind of the keyword whose text is `w`.
pub open spec fn keyword_kind(w: Seq<u8>) -> Option<TokenKind> {
    kind_from(w, 0)
}

/// The texts of all keywords: the keyword set given to the raw tokenizer.
pub open spec fn keyword_set() -> Seq<Seq<u8>> {
    keyword_kinds().map_values(|k: TokenKind| keyword_text(k))
}

proof fn lemma_kind_from(w: Seq<u8>, i: int, j: int)
    requires
        0 <= i <= j < keyword_kinds().len(),
        keyword_text(keyword_kinds()[j]) == w,
    ensures
        kind_from(w, i) matches Some(k) && keyword_text(k) == w,
    decreases j - i,
{
    if keyword_text(keyword_kinds()[i]) != w {
        lemma_kind_from(w, i + 1, j);
    }
}

/// Every text of the keyword set has a kind.
pub proof fn lemma_keyword_kind(w: Seq<u8>)
    requires
        keyword_set().contains(w),
    ensures
        keyword_kind(w) matches Some(k) && keyword_text(k) == w,
{
    let j = choose|j: int| 0 <= j < keyword_set().len() && keyword_set()[j] == w;
    lemma_kind_from(w, 0, j);
}

/// Kind of the keyword whose text is `text`.
pub fn match_keyword(text: &[u8]) -> (r: Option<TokenKind>)
    ensures
        r == keyword_kind(text@),
{
    let kinds = keyword_kinds_vec();
    let mut i: usize = 0;
    while i < kinds.len()
        invariant
            kinds@ == keyword_kinds(),
            i <= kinds@.len(),
            kind_from(text@, 0) == kind_from(text@, i as int),
        decreases kinds.len() - i,
    {
        let k = kinds[i];
        let bytes = keyword_bytes(k);
        if bytes_eq(bytes.as_slice(), text) {
            return Some(k);
        }
        i = i + 1;
    }
    None
}

/// The keyword set of the language, as byte strings.
pub fn keywords() -> (r: Vec<Vec<u8>>)
    ensures
        kw_view(r@) == keyword_set(),
{
    let kinds = keyword_kinds_vec();
    let mut r: Vec<Vec<u8>> = Vec::new();
    let mut i: usize = 0;
    while i < kinds.len()
        invariant
            kinds@ == keyword_kinds(),
            i <= kinds@.len(),
            r@.len() == i,
            kw_view(r@) == keyword_set().subrange(0, i as int),
        decreases kinds.len() - i,
    {
        let bytes = keyword_bytes(kinds[i]);
        let ghost old_r = r@;
        r.push(bytes);
        assert(keyword_set()[i as int] == keyword_text(keyword_kinds()[i as int]));
        assert forall|j: int| 0 <= j <= i implies #[trigger] kw_view(r@)[j] == keyword_set().subrange(
            0,
            i + 1,
        )[j] by {
            if j < i {
                assert(r@[j] == old_r[j]);
                assert(kw_view(old_r)[j] == keyword_set().subrange(0, i as int)[j]);
            }
        }
        assert(kw_view(r@) =~= keyword_set().subrange(0, i + 1));
        i = i + 1;
    }
    assert(keyword_set().subrange(0, kinds@.len() as int) =~= keyword_set());
    r
}

/// A classified token: its kind, its source text and its location.
#[derive(Debug, Clone, Copy, PartialEq, Eq)]
pub struct Token<'a> {
    pub kind: TokenKind,
    pub text: &'a [u8],
    pub span: Span,
}

/// `span` covers the source from `q` to `end`.
pub open spec fn span_of(s: Seq<u8>, q: int, end: int, span: Span) -> bool {
    &&& span.min[0] == cursor_at(s, q).0 && span.min[1] == cursor_at(s, q).1
    &&& span.max[0] == cursor_at(s, end).0 && span.max[1] == cursor_at(s, end).1
}

/// `res` is the classification of the raw token `rt` located by `span`.
pub open spec fn classified<'a>(rt: RawToken<'a>, span: Span, res: Result<Token<'a>, Error<'a>>) -> bool {
    match rt {
        RawToken::Keyword(t) => res matches Ok(tok) && Some(tok.kind) == keyword_kind(t@)
            && tok.text == t && tok.span == span,
        RawToken::Ident(t) => res == Ok::<Token<'a>, Error<'a>>(
            Token { kind: TokenKind::Ident, text: t, span },
        ),
        RawToken::Lit(t) => res == Ok::<Token<'a>, Error<'a>>(
            Token { kind: TokenKind::Lit, text: t, span },
        ),
        RawToken::Eof => res matches Ok(tok) && tok.kind == TokenKind::Eof && tok.text@.len() == 0
            && tok.span == span,
        RawToken::Unexpected(b) => res == Err::<Token<'a>, Error<'a>>(
            Error::UnexpectedByte { byte: b, span },
        ),
    }
}

/// Input source tokens.
pub struct Tokens<'a> {
    ended: bool,
    raw: raw::Tokens<'a>,
}

impl<'a> Tokens<'a> {
    /// Bytes of the input.
    pub closed spec fn bytes(&self) -> Seq<u8> {
        self.raw.bytes()
    }

    /// Position of the next byte to read.
    pub closed spec fn position(&self) -> int {
        self.raw.position()
    }

    /// No more tokens will be emitted.
    pub closed spec fn is_ended(&self) -> bool {
        self.ended
    }

    /// Internal consistency.
    pub closed spec fn wf(&self) -> bool {
        &&& self.raw.wf()
        &&& self.raw.position() <= self.raw.bytes().len()
        &&& self.raw.keywords() == keyword_set()
        &&& self.raw.is_ended() ==> self.ended
    }

    /// Create new Tokens.
    pub fn new(input: &'a str) -> (r: Self)
        ensures
            r.wf(),
            r.bytes() == input.spec_bytes(),
            r.position() == 0,
            !r.is_ended(),
    {
        Self { ended: false, raw: raw::Tokens::new(input, keywords()) }
    }

    /// Next token, or the error that stops the tokenization.
    ///
    /// An unterminated string literal ends the input early ([`Error::Eof`]);
    /// an unexpected byte gives [`Error::UnexpectedByte`]. After an error or
    /// the end of file token, no more tokens are emitted.
    pub fn next(&mut self) -> (r: Option<Result<Token<'a>, Error<'a>>>)
        requires
            old(self).wf(),
        ensures
            final(self).wf(),
            final(self).bytes() == old(self).bytes(),
            final(self).position() <= final(self).bytes().len(),
            final(self).is_ended() || old(self).position() < final(self).position(),
            old(self).is_ended() ==> r is None && final(self).is_ended(),
            !old(self).is_ended() ==> (r matches Some(res) && {
                let s = old(self).bytes();
                let q = skip_trivia(s, old(self).position());
                if q < s.len() && s[q] == 34 && find_quote(s, q + 1) is None {
                    res == Err::<Token<'a>, Error<'a>>(Error::Eof) && final(self).is_ended()
                } else {
                    exists|rt: RawToken<'a>, span: Span|
                        lexed(s, keyword_set(), q, rt, final(self).position())
                            && #[trigger] classified(rt, span, res)
                            && span_of(s, q, final(self).position(), span)
                            && final(self).is_ended() == (rt is Eof || rt is Unexpected)
                }
            }),
    {
        if self.ended {
            return None;
        }
        if !self.raw.next_is_lexable() {
            self.ended = true;
            return Some(Err(Error::Eof));
        }
        let ghost s = self.raw.bytes();
        let ghost q = skip_trivia(s, self.raw.position());
        let (rt, span) = match self.raw.next() {
            Some(t) => t,
            None => return None,
        };
        let res = match rt {
            RawToken::Unexpected(byte) => {
                self.ended = true;
                Err(Error::UnexpectedByte { byte, span })
            },
            RawToken::Ident(text) => Ok(Token { kind: TokenKind::Ident, text, span }),
            RawToken::Lit(text) => Ok(Token { kind: TokenKind::Lit, text, span }),
            RawToken::Eof => {
                self.ended = true;
                Ok(Token { kind: TokenKind::Eof, text: &[], span })
            },
            RawToken::Keyword(text) => {
                proof {
                    lemma_keyword_kind(text@);
                }
                match match_keyword(text) {
                    Some(kind) => Ok(Token { kind, text, span }),
                    None => return None,
                }
            },
        };
        assert(lexed(s, keyword_set(), q, rt, self.position()) && classified(rt, span, res));
        Some(res)
    }
}


/// `t` ends with the end of file token, and no other token is the end of file.
pub open spec fn eof_terminated<'a>(t: Seq<Token<'a>>) -> bool {
    &&& t.len() > 0
    &&& t.last().kind == TokenKind::Eof
    &&& forall|i: int| 0 <= i < t.len() - 1 ==> t[i].kind != TokenKind::Eof
}

/// Reading from position `p` of `s` (after whitespace and comments) gives
/// the token `t` and stops at position `e`.
pub open spec fn token_step<'a>(s: Seq<u8>, p: int, t: Token<'a>, e: int) -> bool {
    let q = skip_trivia(s, p);
    exists|rt: RawToken<'a>, span: Span|
        lexed(s, keyword_set(), q, rt, e) && #[trigger] classified(
            rt,
            span,
            Ok::<Token<'a>, Error<'a>>(t),
        ) && span_of(s, q, e, span)
}

/// `toks` are the tokens read in turn from the start of `s`, token `i`
/// ending at position `ends[i]`.
pub open spec fn lexes<'a>(s: Seq<u8>, toks: Seq<Token<'a>>, ends: Seq<int>) -> bool {
    &&& toks.len() == ends.len()
    &&& forall|i: int|
        0 <= i < toks.len() ==> token_step(
            s,
            if i == 0 {
                0
            } else {
                ends[i - 1]
            },
            #[trigger] toks[i],
            ends[i],
        )
}

/// Two tokens have the same kind, text and location.
pub open spec fn same_token<'a>(a: Token<'a>, b: Token<'a>) -> bool {
    &&& a.kind == b.kind
    &&& a.text@ == b.text@
    &&& a.span.min[0] == b.span.min[0] && a.span.min[1] == b.span.min[1]
    &&& a.span.max[0] == b.span.max[0] && a.span.max[1] == b.span.max[1]
}

/// Two raw tokens are of the same variant with the same text.
pub open spec fn same_raw<'a>(a: RawToken<'a>, b: RawToken<'a>) -> bool {
    match (a, b) {
        (RawToken::Keyword(x), RawToken::Keyword(y)) => x@ == y@,
        (RawToken::Ident(x), RawToken::Ident(y)) => x@ == y@,
        (RawToken::Lit(x), RawToken::Lit(y)) => x@ == y@,
        (RawToken::Eof, RawToken::Eof) => true,
        (RawToken::Unexpected(x), RawToken::Unexpected(y)) => x == y,
        _ => false,
    }
}

proof fn lemma_lexed_unique<'a>(s: Seq<u8>, kws: Seq<Seq<u8>>, q: int, a: RawToken<'a>, e1: int, b: RawToken<'a>, e2: int)
    requires
        lexed(s, kws, q, a, e1),
        lexed(s, kws, q, b, e2),
    ensures
        e1 == e2,
        same_raw(a, b),
{
    if q < s.len() && s[q] != 34 && !(is_digit(s[q]) && s[q] != 48) && !is_word(s[q]) {
        if exists|k: int| is_kw_match(s, kws, q, k) {
            assert(e1 <= e2 && e2 <= e1);
        }
    }
}

/// A token read at position `p` is determined by the input.
proof fn lemma_step_unique<'a>(s: Seq<u8>, p: int, a: Token<'a>, e1: int, b: Token<'a>, e2: int)
    requires
        token_step(s, p, a, e1),
        token_step(s, p, b, e2),
    ensures
        e1 == e2,
        same_token(a, b),
{
    let q = skip_trivia(s, p);
    let (ra, sa) = choose|rt: RawToken<'a>, span: Span|
        lexed(s, keyword_set(), q, rt, e1) && #[trigger] classified(rt, span, Ok::<Token<'a>, Error<'a>>(a)) && span_of(
            s,
            q,
            e1,
            span,
        );
    let (rb, sb) = choose|rt: RawToken<'a>, span: Span|
        lexed(s, keyword_set(), q, rt, e2) && #[trigger] classified(rt, span, Ok::<Token<'a>, Error<'a>>(b)) && span_of(
            s,
            q,
            e2,
            span,
        );
    lemma_lexed_unique(s, keyword_set(), q, ra, e1, rb, e2);
    match ra {
        RawToken::Eof => {
            assert(a.text@ =~= b.text@);
        },
        RawToken::Keyword(x) => {
            assert(Some(a.kind) == keyword_kind(x@));
            assert(Some(b.kind) == keyword_kind(rb->Keyword_0@));
        },
        _ => {},
    }
}

/// The tokens of an input are determined by it: any two lexings of the
/// input up to its end of file token have the same tokens, of the same kinds,
/// texts and locations.
pub proof fn lemma_tokens_determined<'a>(s: Seq<u8>, t1: Seq<Token<'a>>, n1: Seq<int>, t2: Seq<Token<'a>>, n2: Seq<int>)
    requires
        lexes(s, t1, n1),
        lexes(s, t2, n2),
        eof_terminated(t1),
        eof_terminated(t2),
    ensures
        t1.len() == t2.len(),
        forall|i: int| 0 <= i < t1.len() ==> same_token(#[trigger] t1[i], t2[i]),
{
    let m = if t1.len() < t2.len() {
        t1.len()
    } else {
        t2.len()
    };
    assert forall|i: int| 0 <= i < m implies n1[i] == n2[i] && same_token(#[trigger] t1[i], t2[i]) by {
        lemma_prefix_same(s, t1, n1, t2, n2, i);
    }
    if t1.len() < t2.len() {
        assert(same_token(t1[t1.len() - 1], t2[t1.len() - 1]));
    } else if t2.len() < t1.len() {
        assert(same_token(t1[t2.len() - 1], t2[t2.len() - 1]));
    }
}

proof fn lemma_prefix_same<'a>(s: Seq<u8>, t1: Seq<Token<'a>>, n1: Seq<int>, t2: Seq<Token<'a>>, n2: Seq<int>, i: int)
    requires
        lexes(s, t1, n1),
        lexes(s, t2, n2),
        0 <= i < t1.len(),
        i < t2.len(),
    ensures
        n1[i] == n2[i],
        same_token(t1[i], t2[i]),
    decreases i,
{
    if i > 0 {
        lemma_prefix_same(s, t1, n1, t2, n2, i - 1);
    }
    let p = if i == 0 {
        0
    } else {
        n1[i - 1]
    };
    assert(token_step(s, p, t1[i], n1[i]));
    assert(token_step(s, p, t2[i], n2[i]));
    lemma_step_unique(s, p, t1[i], n1[i], t2[i], n2[i]);
}

/// Reading from position `p` of `s` (after whitespace and comments) stops
/// with the error `e`: an unterminated string literal ends the input early,
/// an unexpected byte is reported with its location.
pub open spec fn error_step<'a>(s: Seq<u8>, p: int, e: Error<'a>) -> bool {
    let q = skip_trivia(s, p);
    if q < s.len() && s[q] == 34 && find_quote(s, q + 1) is None {
        e == Error::<'a>::Eof
    } else {
        exists|rt: RawToken<'a>, span: Span, end: int|
            #![trigger lexed(s, keyword_set(), q, rt, end), classified(rt, span, Err::<Token<'a>, Error<'a>>(e))]
            lexed(s, keyword_set(), q, rt, end) && classified(rt, span, Err::<Token<'a>, Error<'a>>(e)) && span_of(
                s,
                q,
                end,
                span,
            )
    }
}

/// Tokens read from the start of `s` are followed by the error `e`.
pub open spec fn tokenize_error<'a>(s: Seq<u8>, e: Error<'a>) -> bool {
    exists|toks: Seq<Token<'a>>, ends: Seq<int>|
        #![trigger lexes(s, toks, ends)]
        lexes(s, toks, ends) && error_step(
            s,
            if toks.len() == 0 {
                0
            } else {
                ends.last()
            },
            e,
        )
}

proof fn lemma_kind_from_not_eof(w: Seq<u8>, i: int)
    ensures
        kind_from(w, i) != Some(TokenKind::Eof),
    decreases keyword_kinds().len() - i,
{
    assert(forall|j: int| 0 <= j < keyword_kinds().len() ==> keyword_kinds()[j] != TokenKind::Eof);
    if 0 <= i < keyword_kinds().len() {
        lemma_kind_from_not_eof(w, i + 1);
    }
}

/// Reading a token and stopping with an error exclude each other.
proof fn lemma_step_or_error<'a>(s: Seq<u8>, p: int, t: Token<'a>, e: int, err: Error<'a>)
    requires
        token_step(s, p, t, e),
    ensures
        !error_step(s, p, err),
{
    let q = skip_trivia(s, p);
    let (ra, sa) = choose|rt: RawToken<'a>, span: Span|
        lexed(s, keyword_set(), q, rt, e) && #[trigger] classified(rt, span, Ok::<Token<'a>, Error<'a>>(t)) && span_of(
            s,
            q,
            e,
            span,
        );
    if error_step(s, p, err) && !(q < s.len() && s[q] == 34 && find_quote(s, q + 1) is None) {
        let (rb, sb, end) = choose|rt: RawToken<'a>, span: Span, end: int|
            #![trigger lexed(s, keyword_set(), q, rt, end), classified(rt, span, Err::<Token<'a>, Error<'a>>(err))]
            lexed(s, keyword_set(), q, rt, end) && classified(rt, span, Err::<Token<'a>, Error<'a>>(err));
        lemma_lexed_unique(s, keyword_set(), q, ra, e, rb, end);
    }
}

/// The error that stops the tokenizer is determined by the input.
pub proof fn lemma_error_determined<'a>(s: Seq<u8>, e1: Error<'a>, e2: Error<'a>)
    requires
        tokenize_error(s, e1),
        tokenize_error(s, e2),
    ensures
        e1 == e2,
{
    let (t1, n1) = choose|toks: Seq<Token<'a>>, ends: Seq<int>|
        #![trigger lexes(s, toks, ends)]
        lexes(s, toks, ends) && error_step(
            s,
            if toks.len() == 0 {
                0
            } else {
                ends.last()
            },
            e1,
        );
    let (t2, n2) = choose|toks: Seq<Token<'a>>, ends: Seq<int>|
        #![trigger lexes(s, toks, ends)]
        lexes(s, toks, ends) && error_step(
            s,
            if toks.len() == 0 {
                0
            } else {
                ends.last()
            },
            e2,
        );
    let p1 = if t1.len() == 0 { 0 } else { n1.last() };
    let p2 = if t2.len() == 0 { 0 } else { n2.last() };
    if t1.len() < t2.len() {
        if t1.len() > 0 {
            lemma_prefix_same(s, t1, n1, t2, n2, t1.len() - 1);
        }
        assert(token_step(s, p1, t2[t1.len() as int], n2[t1.len() as int]));
        lemma_step_or_error(s, p1, t2[t1.len() as int], n2[t1.len() as int], e1);
    } else if t2.len() < t1.len() {
        if t2.len() > 0 {
            lemma_prefix_same(s, t1, n1, t2, n2, t2.len() - 1);
        }
        assert(token_step(s, p2, t1[t2.len() as int], n1[t2.len() as int]));
        lemma_step_or_error(s, p2, t1[t2.len() as int], n1[t2.len() as int], e2);
    } else {
        if t1.len() > 0 {
            lemma_prefix_same(s, t1, n1, t2, n2, t1.len() - 1);
        }
        assert(p1 == p2);
        let q = skip_trivia(s, p1);
        if !(q < s.len() && s[q] == 34 && find_quote(s, q + 1) is None) {
            let (ra, sa, ea) = choose|rt: RawToken<'a>, span: Span, end: int|
                #![trigger lexed(s, keyword_set(), q, rt, end), classified(rt, span, Err::<Token<'a>, Error<'a>>(e1))]
                lexed(s, keyword_set(), q, rt, end) && classified(rt, span, Err::<Token<'a>, Error<'a>>(e1)) && span_of(
                    s,
                    q,
                    end,
                    span,
                );
            let (rb, sb, eb) = choose|rt: RawToken<'a>, span: Span, end: int|
                #![trigger lexed(s, keyword_set(), q, rt, end), classified(rt, span, Err::<Token<'a>, Error<'a>>(e2))]
                lexed(s, keyword_set(), q, rt, end) && classified(rt, span, Err::<Token<'a>, Error<'a>>(e2)) && span_of(
                    s,
                    q,
                    end,
                    span,
                );
            lemma_lexed_unique(s, keyword_set(), q, ra, ea, rb, eb);
            assert(sa.min =~= sb.min);
            assert(sa.max =~= sb.max);
            assert(sa == sb);
        }
    }
}

/// Past the end of the input only the end of file token is read.
proof fn lemma_step_past_end<'a>(s: Seq<u8>, p: int, t: Token<'a>, e: int)
    requires
        p >= s.len(),
        token_step(s, p, t, e),
    ensures
        e == p,
{
    assert(!starts_comment(s, p));
    let (rt, span) = choose|rt: RawToken<'a>, span: Span|
        lexed(s, keyword_set(), p, rt, e) && #[trigger] classified(rt, span, Ok::<Token<'a>, Error<'a>>(t)) && span_of(
            s,
            p,
            e,
            span,
        );
}

/// Past the end of the input the tokenizer stops with no error.
proof fn lemma_no_error_past_end<'a>(s: Seq<u8>, p: int, err: Error<'a>)
    requires
        p >= s.len(),
    ensures
        !error_step(s, p, err),
{
    assert(!starts_comment(s, p));
    if error_step(s, p, err) {
        let (rt, span, end) = choose|rt: RawToken<'a>, span: Span, end: int|
            #![trigger lexed(s, keyword_set(), p, rt, end), classified(rt, span, Err::<Token<'a>, Error<'a>>(err))]
            lexed(s, keyword_set(), p, rt, end) && classified(rt, span, Err::<Token<'a>, Error<'a>>(err)) && span_of(
                s,
                p,
                end,
                span,
            );
    }
}

/// The end of file token ends past the end of the input.
proof fn lemma_eof_step<'a>(s: Seq<u8>, p: int, t: Token<'a>, e: int)
    requires
        token_step(s, p, t, e),
        t.kind == TokenKind::Eof,
    ensures
        e >= s.len(),
{
    let q = skip_trivia(s, p);
    let (rt, span) = choose|rt: RawToken<'a>, span: Span|
        lexed(s, keyword_set(), q, rt, e) && #[trigger] classified(rt, span, Ok::<Token<'a>, Error<'a>>(t)) && span_of(
            s,
            q,
            e,
            span,
        );
    if let RawToken::Keyword(x) = rt {
        lemma_kind_from_not_eof(x@, 0);
    }
}

/// An input that lexes up to its end of file token does not stop the
/// tokenizer with an error: tokenizing succeeds exactly on such inputs.
pub proof fn lemma_tokens_or_error<'a>(s: Seq<u8>, t: Seq<Token<'a>>, n: Seq<int>, err: Error<'a>)
    requires
        lexes(s, t, n),
        eof_terminated(t),
    ensures
        !tokenize_error(s, err),
{
    if tokenize_error(s, err) {
        let (t2, n2) = choose|toks: Seq<Token<'a>>, ends: Seq<int>|
            #![trigger lexes(s, toks, ends)]
            lexes(s, toks, ends) && error_step(
                s,
                if toks.len() == 0 {
                    0
                } else {
                    ends.last()
                },
                err,
            );
        let k = t2.len();
        let len = t.len();
        let p2 = if k == 0 { 0 } else { n2.last() };
        if k < len {
            if k > 0 {
                lemma_prefix_same(s, t, n, t2, n2, k - 1);
            }
            assert(token_step(s, p2, t[k as int], n[k as int]));
            lemma_step_or_error(s, p2, t[k as int], n[k as int], err);
        } else {
            lemma_prefix_same(s, t, n, t2, n2, len - 1);
            let p0 = if len == 1 { 0 } else { n2[len - 2] };
            assert(token_step(s, p0, t2[len - 1], n2[len - 1]));
            lemma_eof_step(s, p0, t2[len - 1], n2[len - 1]);
            lemma_ends_past(s, t2, n2, len - 1);
            lemma_no_error_past_end(s, p2, err);
        }
    }
}

proof fn lemma_ends_past<'a>(s: Seq<u8>, t: Seq<Token<'a>>, n: Seq<int>, j: int)
    requires
        lexes(s, t, n),
        0 <= j < t.len(),
        n[j] >= s.len(),
    ensures
        n.last() >= s.len(),
    decreases t.len() - j,
{
    if j + 1 < t.len() {
        assert(token_step(s, n[j], t[j + 1], n[j + 1]));
        lemma_step_past_end(s, n[j], t[j + 1], n[j + 1]);
        lemma_ends_past(s, t, n, j + 1);
    }
}

/// All the tokens of `input`, in order, up to and including the end of file
/// token; or the first error of the tokenizer.
pub fn tokenize<'a>(input: &'a str) -> (r: Result<Vec<Token<'a>>, Error<'a>>)
    ensures
        r matches Ok(v) ==> eof_terminated(v@) && exists|ends: Seq<int>| lexes(input.spec_bytes(), v@, ends),
        r matches Err(e) ==> tokenize_error(input.spec_bytes(), e),
        r is Err ==> !exists|toks: Seq<Token<'a>>, ends: Seq<int>|
            #![trigger lexes(input.spec_bytes(), toks, ends)]
            eof_terminated(toks) && lexes(input.spec_bytes(), toks, ends),
{
    let mut tokens = Tokens::new(input);
    let mut out: Vec<Token<'a>> = Vec::new();
    let ghost s = input.spec_bytes();
    let ghost mut ends: Seq<int> = Seq::empty();
    loop
        invariant
            tokens.wf(),
            !tokens.is_ended(),
            tokens.bytes() == s,
            s == input.spec_bytes(),
            tokens.position() <= tokens.bytes().len(),
            forall|i: int| 0 <= i < out@.len() ==> out@[i].kind != TokenKind::Eof,
            lexes(s, out@, ends),
            tokens.position() == if out@.len() == 0 {
                0
            } else {
                ends.last()
            },
        decreases tokens.bytes().len() - tokens.position(),
    {
        let ghost before = tokens;
        match tokens.next() {
            None => {
                return Err(Error::Eof);
            },
            Some(Err(e)) => {
                proof {
                    let q = skip_trivia(s, before.position());
                    if !(q < s.len() && s[q] == 34 && find_quote(s, q + 1) is None) {
                        let (rt, span) = choose|rt: RawToken<'a>, span: Span|
                            lexed(s, keyword_set(), q, rt, tokens.position())
                                && #[trigger] classified(rt, span, Err::<Token<'a>, Error<'a>>(e))
                                && span_of(s, q, tokens.position(), span)
                                && tokens.is_ended() == (rt is Eof || rt is Unexpected);
                        assert(classified(rt, span, Err::<Token<'a>, Error<'a>>(e)));
                        assert(lexed(s, keyword_set(), q, rt, tokens.position()));
                        assert(span_of(s, q, tokens.position(), span));
                    }
                    assert(error_step(s, before.position(), e));
                    assert(lexes(s, out@, ends));
                    assert(tokenize_error(s, e));
                    assert forall|toks: Seq<Token<'a>>, ends2: Seq<int>|
                        #![trigger lexes(s, toks, ends2)]
                        !(eof_terminated(toks) && lexes(s, toks, ends2)) by {
                        if eof_terminated(toks) && lexes(s, toks, ends2) {
                            lemma_tokens_or_error(s, toks, ends2, e);
                        }
                    }
                }
                return Err(e);
            },
            Some(Ok(t)) => {
                let ghost old_out = out@;
                proof {
                    let q = skip_trivia(s, before.position());
                    if q < s.len() && s[q] == 34 && find_quote(s, q + 1) is None {
                        assert(false);
                    }
                    let (rt, span) = choose|rt: RawToken<'a>, span: Span|
                        lexed(s, keyword_set(), q, rt, tokens.position())
                            && #[trigger] classified(rt, span, Ok::<Token<'a>, Error<'a>>(t))
                            && span_of(s, q, tokens.position(), span)
                            && tokens.is_ended() == (rt is Eof || rt is Unexpected);
                    assert(classified(rt, span, Ok::<Token<'a>, Error<'a>>(t)));
                    assert(token_step(s, before.position(), t, tokens.position()));
                    assert(t.kind != TokenKind::Eof ==> !tokens.is_ended());
                }
                out.push(t);
                proof {
                    let old_ends = ends;
                    ends = ends.push(tokens.position());
                    assert forall|i: int| 0 <= i < out@.len() implies token_step(
                        s,
                        if i == 0 {
                            0
                        } else {
                            ends[i - 1]
                        },
                        #[trigger] out@[i],
                        ends[i],
                    ) by {
                        if i < old_out.len() {
                            assert(out@[i] == old_out[i]);
                            assert(ends[i] == old_ends[i]);
                            if i > 0 {
                                assert(ends[i - 1] == old_ends[i - 1]);
                            }
                        } else {
                            assert(out@[i] == t);
                        }
                    }
                }
                if t.kind == TokenKind::Eof {
                    assert(out@.last() == t);
                    assert(lexes(s, out@, ends));
                    assert(forall|i: int| 0 <= i < out@.len() - 1 ==> out@[i] == old_out[i]);
                    assert(eof_terminated(out@));
                    return Ok(out);
                }
            },
        }
    }
}


/// The source text of each keyword kind as the language documents it, in
/// ASCII codes (each with its text above it): `<` for `Less`, `>` for
/// `Greater`, `mod` for `Mod`, `.ld` for `Ld`, and so on; empty for
/// identifiers, literals and the end of file.
pub open spec fn documented_keyword(k: TokenKind) -> Seq<u8> {
    match k {
        // `!!`
        TokenKind::BangBang => seq![33u8, 33u8],
        // `..`
        TokenKind::DotDot => seq![46u8, 46u8],
        // `::`
        TokenKind::Square => seq![58u8, 58u8],
        // `+=`
        TokenKind::PlusAssign => seq![43u8, 61u8],
        // `-=`
        TokenKind::MinusAssign => seq![45u8, 61u8],
        // `*=`
        TokenKind::StarAssign => seq![42u8, 61u8],
        // `/=`
        TokenKind::SlashAssign => seq![47u8, 61u8],
        // `&=`
        TokenKind::AmpersandAssign => seq![38u8, 61u8],
        // `|=`
        TokenKind::PipeAssign => seq![124u8, 61u8],
        // `^=`
        TokenKind::CaretAssign => seq![94u8, 61u8],
        // `<<`
        TokenKind::LessLess => seq![60u8, 60u8],
        // `>>`
        TokenKind::GreatGreat => seq![62u8, 62u8],
        // `==`
        TokenKind::Eq => seq![61u8, 61u8],
        // `~=`
        TokenKind::TildeEq => seq![126u8, 61u8],
        // `<=`
        TokenKind::LessEq => seq![60u8, 61u8],
        // `>=`
        TokenKind::GreaterEq => seq![62u8, 61u8],
        // `=`
        TokenKind::Assign => seq![61u8],
        // `.`
        TokenKind::Dot => seq![46u8],
        // `,`
        TokenKind::Comma => seq![44u8],
        // `:`
        TokenKind::Colon => seq![58u8],
        // `;`
        TokenKind::SemiColon => seq![59u8],
        // `{`
        TokenKind::LeftBracket => seq![123u8],
        // `}`
        TokenKind::RightBracket => seq![125u8],
        // `[`
        TokenKind::LeftSquare => seq![91u8],
        // `]`
        TokenKind::RightSquare => seq![93u8],
        // `(`
        TokenKind::LeftPar => seq![40u8],
        // `)`
        TokenKind::RightPar => seq![41u8],
        // `+`
        TokenKind::Plus => seq![43u8],
        // `-`
        TokenKind::Minus => seq![45u8],
        // `*`
        TokenKind::Star => seq![42u8],
        // `/`
        TokenKind::Slash => seq![47u8],
        // `&`
        TokenKind::Ampersand => seq![38u8],
        // `|`
        TokenKind::Pipe => seq![124u8],
        // `^`
        TokenKind::Caret => seq![94u8],
        // `~`
        TokenKind::Tilde => seq![126u8],
        // `@`
        TokenKind::At => seq![64u8],
        // `>`
        TokenKind::Greater => seq![62u8],
        // `<`
        TokenKind::Less => seq![60u8],
        // `mod`
        TokenKind::Mod => seq![109u8, 111u8, 100u8],
        // `union`
        TokenKind::Union => seq![117u8, 110u8, 105u8, 111u8, 110u8],
        // `struct`
        TokenKind::Struct => seq![115u8, 116u8, 114u8, 117u8, 99u8, 116u8],
        // `mut`
        TokenKind::Mut => seq![109u8, 117u8, 116u8],
        // `in`
        TokenKind::In => seq![105u8, 110u8],
        // `enum`
        TokenKind::Enum => seq![101u8, 110u8, 117u8, 109u8],
        // `use`
        TokenKind::Use => seq![117u8, 115u8, 101u8],
        // `asm`
        TokenKind::Asm => seq![97u8, 115u8, 109u8],
        // `static`
        TokenKind::Static => seq![115u8, 116u8, 97u8, 116u8, 105u8, 99u8],
        // `const`
        TokenKind::Const => seq![99u8, 111u8, 110u8, 115u8, 116u8],
        // `pub`
        TokenKind::Pub => seq![112u8, 117u8, 98u8],
        // `for`
        TokenKind::For => seq![102u8, 111u8, 114u8],
        // `loop`
        TokenKind::Loop => seq![108u8, 111u8, 111u8, 112u8],
        // `let`
        TokenKind::Let => seq![108u8, 101u8, 116u8],
        // `fn`
        TokenKind::Fn => seq![102u8, 110u8],
        // `if`
        TokenKind::If => seq![105u8, 102u8],
        // `else`
        TokenKind::Else => seq![101u8, 108u8, 115u8, 101u8],
        // `continue`
        TokenKind::Continue => seq![99u8, 111u8, 110u8, 116u8, 105u8, 110u8, 117u8, 101u8],
        // `break`
        TokenKind::Break => seq![98u8, 114u8, 101u8, 97u8, 107u8],
        // `return`
        TokenKind::Return => seq![114u8, 101u8, 116u8, 117u8, 114u8, 110u8],
        // `read`
        TokenKind::Read => seq![114u8, 101u8, 97u8, 100u8],
        // `write`
        TokenKind::Write => seq![119u8, 114u8, 105u8, 116u8, 101u8],
        // `u8`
        TokenKind::U8 => seq![117u8, 56u8],
        // `i8`
        TokenKind::I8 => seq![105u8, 56u8],
        // `%a`
        TokenKind::A => seq![37u8, 97u8],
        // `%f`
        TokenKind::F => seq![37u8, 102u8],
        // `%af`
        TokenKind::AF => seq![37u8, 97u8, 102u8],
        // `%b`
        TokenKind::B => seq![37u8, 98u8],
        // `%c`
        TokenKind::C => seq![37u8, 99u8],
        // `%bc`
        TokenKind::BC => seq![37u8, 98u8, 99u8],
        // `%d`
        TokenKind::D => seq![37u8, 100u8],
        // `%e`
        TokenKind::E => seq![37u8, 101u8],
        // `%de`
        TokenKind::DE => seq![37u8, 100u8, 101u8],
        // `%h`
        TokenKind::H => seq![37u8, 104u8],
        // `%l`
        TokenKind::L => seq![37u8, 108u8],
        // `%hl`
        TokenKind::HL => seq![37u8, 104u8, 108u8],
        // `%sp`
        TokenKind::SP => seq![37u8, 115u8, 112u8],
        // `%pc`
        TokenKind::PC => seq![37u8, 112u8, 99u8],
        // `.nop`
        TokenKind::Nop => seq![46u8, 110u8, 111u8, 112u8],
        // `.stop`
        TokenKind::Stop => seq![46u8, 115u8, 116u8, 111u8, 112u8],
        // `.halt`
        TokenKind::Halt => seq![46u8, 104u8, 97u8, 108u8, 116u8],
        // `.di`
        TokenKind::Di => seq![46u8, 100u8, 105u8],
        // `.ei`
        TokenKind::Ei => seq![46u8, 101u8, 105u8],
        // `.ld`
        TokenKind::Ld => seq![46u8, 108u8, 100u8],
        // `.ldh`
        TokenKind::Ldh => seq![46u8, 108u8, 100u8, 104u8],
        // `.push`
        TokenKind::Push => seq![46u8, 112u8, 117u8, 115u8, 104u8],
        // `.pop`
        TokenKind::Pop => seq![46u8, 112u8, 111u8, 112u8],
        // `.inc`
        TokenKind::Inc => seq![46u8, 105u8, 110u8, 99u8],
        // `.dec`
        TokenKind::Dec => seq![46u8, 100u8, 101u8, 99u8],
        // `.daa`
        TokenKind::Daa => seq![46u8, 100u8, 97u8, 97u8],
        // `.scf`
        TokenKind::Scf => seq![46u8, 115u8, 99u8, 102u8],
        // `.cpl`
        TokenKind::Cpl => seq![46u8, 99u8, 112u8, 108u8],
        // `.ccf`
        TokenKind::Ccf => seq![46u8, 99u8, 99u8, 102u8],
        // `.add`
        TokenKind::Add => seq![46u8, 97u8, 100u8, 100u8],
        // `.adc`
        TokenKind::Adc => seq![46u8, 97u8, 100u8, 99u8],
        // `.sub`
        TokenKind::Sub => seq![46u8, 115u8, 117u8, 98u8],
        // `.sbc`
        TokenKind::Sbc => seq![46u8, 115u8, 98u8, 99u8],
        // `.and`
        TokenKind::And => seq![46u8, 97u8, 110u8, 100u8],
        // `.xor`
        TokenKind::Xor => seq![46u8, 120u8, 111u8, 114u8],
        // `.or`
        TokenKind::Or => seq![46u8, 111u8, 114u8],
        // `.cp`
        TokenKind::Cp => seq![46u8, 99u8, 112u8],
        // `u16`
        TokenKind::U16 => seq![117u8, 49u8, 54u8],
        // `i16`
        TokenKind::I16 => seq![105u8, 49u8, 54u8],
        _ => Seq::empty(),
    }
}

/// Every keyword is read as its documented text: the text that the
/// tokenizer matches for each keyword kind is the documented one (`<` for
/// `Less`, `>` for `Greater`, ...).
pub proof fn lemma_documented_keywords(k: TokenKind)
    ensures
        keyword_text(k) == documented_keyword(k),
{
}

proof fn lemma_kind_from_text(w: Seq<u8>, i: int)
    ensures
        kind_from(w, i) matches Some(k) ==> keyword_text(k) == w,
    decreases keyword_kinds().len() - i,
{
    if 0 <= i < keyword_kinds().len() && keyword_text(keyword_kinds()[i]) != w {
        lemma_kind_from_text(w, i + 1);
    }
}

/// A keyword token is classified as the kind whose documented text is the
/// token's text: a lexed `<` is `Less`, a lexed `>` is `Greater`, a lexed
/// `mod` is `Mod`.
pub proof fn lemma_keyword_token_kind<'a>(t: &'a [u8], span: Span, tok: Token<'a>)
    requires
        classified(RawToken::Keyword(t), span, Ok::<Token<'a>, Error<'a>>(tok)),
    ensures
        documented_keyword(tok.kind) == t@,
{
    lemma_kind_from_text(t@, 0);
    lemma_documented_keywords(tok.kind);
}

} // verus!
