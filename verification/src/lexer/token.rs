use vstd::prelude::*;

use crate::Span;

verus! {

/// The closed set of token classifications. Keywords are identifier-shaped
/// spellings resolved through the reserved-word table, not a separate
/// grammatical category.
#[derive(Debug, PartialEq, Eq, Clone, Copy, Hash, Structural)]
pub enum TokenKind {
    EOF,
    Number,
    String,
    Identifier,

    OpenBracket,
    CloseBracket,
    OpenCurly,
    CloseCurly,
    OpenParen,
    CloseParen,

    Assignment,
    Equals,
    Not,
    NotEquals,

    LessThan,
    Less,
    LessEquals,
    Greater,
    GreaterEquals,

    Or,
    And,

    Dot,
    Semicolon,
    Colon,
    Question,
    Comma,
    Arrow,

    PlusPlus,
    MinusMinus,
    PlusEquals,
    MinusEquals,
    SlashEquals,
    StarEquals,

    Plus,
    Dash,
    Slash,
    Star,
    Percent,

    // Reserved words
    Let,
    Const,
    New,
    Import,
    From,
    Fn,
    Return,
    If,
    Else,
    Foreach,
    While,
    For,
    Export,
    Typeof,
    In,
    Struct,
}

/// A classified lexeme: its kind, its text, and where it sits in the source.
/// For string literals the text is the decoded interior (escape sequences
/// already resolved); for everything else it is the exact matched source.
#[derive(Debug, Clone)]
pub struct Token {
    pub kind: TokenKind,
    pub lexeme: String,
    pub span: Span,
}

/// The mathematical image of a `Token`: the lexeme as a character sequence
/// and the span endpoints as unbounded integers.
pub struct SpecToken {
    pub kind: TokenKind,
    pub lexeme: Seq<char>,
    pub start: int,
    pub end: int,
}

impl View for Token {
    type V = SpecToken;

    open spec fn view(&self) -> SpecToken {
        SpecToken {
            kind: self.kind,
            lexeme: self.lexeme@,
            start: self.span.start as int,
            end: self.span.end as int,
        }
    }
}

/// The reserved-word table: the fixed, case-sensitive mapping from an exact
/// identifier spelling to its keyword kind. Any other spelling is a plain
/// identifier.
pub open spec fn spec_reserved(s: Seq<char>) -> Option<TokenKind> {
    if s == "let"@ {
        Some(TokenKind::Let)
    } else if s == "const"@ {
        Some(TokenKind::Const)
    } else if s == "new"@ {
        Some(TokenKind::New)
    } else if s == "import"@ {
        Some(TokenKind::Import)
    } else if s == "from"@ {
        Some(TokenKind::From)
    } else if s == "return"@ {
        Some(TokenKind::Return)
    } else if s == "fn"@ {
        Some(TokenKind::Fn)
    } else if s == "if"@ {
        Some(TokenKind::If)
    } else if s == "else"@ {
        Some(TokenKind::Else)
    } else if s == "foreach"@ {
        Some(TokenKind::Foreach)
    } else if s == "while"@ {
        Some(TokenKind::While)
    } else if s == "for"@ {
        Some(TokenKind::For)
    } else if s == "export"@ {
        Some(TokenKind::Export)
    } else if s == "typeof"@ {
        Some(TokenKind::Typeof)
    } else if s == "in"@ {
        Some(TokenKind::In)
    } else if s == "struct"@ {
        Some(TokenKind::Struct)
    } else {
        None
    }
}

/// The classification of an identifier-shaped spelling: its keyword kind on
/// an exact hit in the reserved-word table, `Identifier` otherwise.
pub open spec fn reserved_kind(s: Seq<char>) -> TokenKind {
    match spec_reserved(s) {
        Some(k) => k,
        None => TokenKind::Identifier,
    }
}

/// Consults the reserved-word table for an exact, case-sensitive hit.
pub fn reserved_lookup(s: &String) -> (r: Option<TokenKind>)
    ensures
        r == spec_reserved(s@),
{
    if s.eq(&"let".to_owned()) {
        Some(TokenKind::Let)
    } else if s.eq(&"const".to_owned()) {
        Some(TokenKind::Const)
    } else if s.eq(&"new".to_owned()) {
        Some(TokenKind::New)
    } else if s.eq(&"import".to_owned()) {
        Some(TokenKind::Import)
    } else if s.eq(&"from".to_owned()) {
        Some(TokenKind::From)
    } else if s.eq(&"return".to_owned()) {
        Some(TokenKind::Return)
    } else if s.eq(&"fn".to_owned()) {
        Some(TokenKind::Fn)
    } else if s.eq(&"if".to_owned()) {
        Some(TokenKind::If)
    } else if s.eq(&"else".to_owned()) {
        Some(TokenKind::Else)
    } else if s.eq(&"foreach".to_owned()) {
        Some(TokenKind::Foreach)
    } else if s.eq(&"while".to_owned()) {
        Some(TokenKind::While)
    } else if s.eq(&"for".to_owned()) {
        Some(TokenKind::For)
    } else if s.eq(&"export".to_owned()) {
        Some(TokenKind::Export)
    } else if s.eq(&"typeof".to_owned()) {
        Some(TokenKind::Typeof)
    } else if s.eq(&"in".to_owned()) {
        Some(TokenKind::In)
    } else if s.eq(&"struct".to_owned()) {
        Some(TokenKind::Struct)
    } else {
        None
    }
}

} // verus!
