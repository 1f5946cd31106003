use vstd::prelude::*;

use crate::Span;
use crate::errors::{Error, ErrorImpl};
use crate::lexer::token::{SpecToken, Token, TokenKind, reserved_kind, reserved_lookup};

verus! {

/// Appends one character to a string. Relies on `String::push`: the string
/// grows by exactly that character at the end.
#[verifier::external_body]
fn push_char(s: &mut String, c: char)
    ensures
        final(s)@ == old(s)@.push(c),
{
    s.push(c);
}

/// The character classes that the variable-length rules scan runs of.
#[derive(Debug, Clone, Copy, PartialEq, Eq, Structural)]
pub enum CharClass {
    /// `[a-zA-Z_]`: may open an identifier.
    IdentStart,
    /// `[a-zA-Z0-9_]`: may continue an identifier.
    IdentContinue,
    /// `[0-9]`
    Digit,
    /// ASCII whitespace, as skipped between tokens.
    Space,
    /// Any character but `"`: the interior of a string literal.
    NotQuote,
    /// Any character but a newline: the body of a line comment.
    NotNewline,
}

pub open spec fn class_holds(cc: CharClass, c: char) -> bool {
    match cc {
        CharClass::IdentStart => ('a' <= c && c <= 'z') || ('A' <= c && c <= 'Z') || c == '_',
        CharClass::IdentContinue => ('a' <= c && c <= 'z') || ('A' <= c && c <= 'Z') || ('0' <= c
            && c <= '9') || c == '_',
        CharClass::Digit => '0' <= c && c <= '9',
        CharClass::Space => c == ' ' || c == '\t' || c == '\n' || c == '\r' || c == '\u{b}'
            || c == '\u{c}',
        CharClass::NotQuote => c != '"',
        CharClass::NotNewline => c != '\n',
    }
}

pub fn char_in_class(cc: CharClass, c: char) -> (r: bool)
    ensures
        r == class_holds(cc, c),
{
    match cc {
        CharClass::IdentStart => ('a' <= c && c <= 'z') || ('A' <= c && c <= 'Z') || c == '_',
        CharClass::IdentContinue => ('a' <= c && c <= 'z') || ('A' <= c && c <= 'Z') || ('0' <= c
            && c <= '9') || c == '_',
        CharClass::Digit => '0' <= c && c <= '9',
        CharClass::Space => c == ' ' || c == '\t' || c == '\n' || c == '\r' || c == '\u{b}'
            || c == '\u{c}',
        CharClass::NotQuote => c != '"',
        CharClass::NotNewline => c != '\n',
    }
}

/// The length of the maximal run of characters of class `cc` starting at `i`.
pub open spec fn run_len(s: Seq<char>, i: int, cc: CharClass) -> int
    decreases s.len() - i,
{
    if 0 <= i < s.len() && class_holds(cc, s[i]) {
        1 + run_len(s, i + 1, cc)
    } else {
        0
    }
}

pub proof fn lemma_run_len_bounds(s: Seq<char>, i: int, cc: CharClass)
    requires
        0 <= i <= s.len(),
    ensures
        0 <= run_len(s, i, cc) <= s.len() - i,
    decreases s.len() - i,
{
    if i < s.len() && class_holds(cc, s[i]) {
        lemma_run_len_bounds(s, i + 1, cc);
    }
}

/// Scans forward from `start` to the end of the maximal run of class `cc`.
pub fn scan_run(src: &Vec<char>, start: usize, cc: CharClass) -> (end: usize)
    requires
        start <= src@.len(),
    ensures
        end as int == start as int + run_len(src@, start as int, cc),
        start <= end <= src@.len(),
{
    let mut i: usize = start;
    while i < src.len() && char_in_class(cc, src[i])
        invariant
            start <= i <= src@.len(),
            run_len(src@, start as int, cc) == (i - start) + run_len(src@, i as int, cc),
        decreases src@.len() - i,
    {
        i = i + 1;
    }
    proof {
        assert(run_len(src@, i as int, cc) == 0);
    }
    i
}

/// One rule of the pattern table: a matcher for the text a rule consumes.
/// `Fixed` carries a literal of one or two characters and the kind it emits;
/// the other variants are the variable-length rules.
#[derive(Debug, Clone, Copy)]
pub enum Pattern {
    /// `[a-zA-Z_][a-zA-Z0-9_]*`: an identifier or reserved word.
    Symbol,
    /// `[0-9]+(\.[0-9]+)?`: a number literal.
    Number,
    /// A run of whitespace; consumed, no token.
    Whitespace,
    /// `"` + any run of non-`"` characters + `"`: a string literal.
    StringLit,
    /// `//` to end of line; consumed, no token.
    Comment,
    Fixed(char, Option<char>, TokenKind),
}

/// How many characters `p` matches at offset `i` of `s`, starting exactly
/// there, or `None` when it does not match at that offset. Meaningful for
/// `0 <= i < s.len()`.
pub open spec fn match_len(p: Pattern, s: Seq<char>, i: int) -> Option<int> {
    match p {
        Pattern::Symbol => if class_holds(CharClass::IdentStart, s[i]) {
            Some(1 + run_len(s, i + 1, CharClass::IdentContinue))
        } else {
            None
        },
        Pattern::Number => if class_holds(CharClass::Digit, s[i]) {
            let j = i + run_len(s, i, CharClass::Digit);
            if j + 1 < s.len() && s[j] == '.' && class_holds(CharClass::Digit, s[j + 1]) {
                Some(j + 1 + run_len(s, j + 1, CharClass::Digit) - i)
            } else {
                Some(j - i)
            }
        } else {
            None
        },
        Pattern::Whitespace => if class_holds(CharClass::Space, s[i]) {
            Some(run_len(s, i, CharClass::Space))
        } else {
            None
        },
        Pattern::StringLit => if s[i] == '"' && i + 1 + run_len(s, i + 1, CharClass::NotQuote)
            < s.len() {
            Some(run_len(s, i + 1, CharClass::NotQuote) + 2)
        } else {
            None
        },
        Pattern::Comment => if s[i] == '/' && i + 1 < s.len() && s[i + 1] == '/' {
            Some(2 + run_len(s, i + 2, CharClass::NotNewline))
        } else {
            None
        },
        Pattern::Fixed(c1, oc2, _) => match oc2 {
            None => if s[i] == c1 {
                Some(1)
            } else {
                None
            },
            Some(c2) => if s[i] == c1 && i + 1 < s.len() && s[i + 1] == c2 {
                Some(2)
            } else {
                None
            },
        },
    }
}

/// A rule that matches consumes at least one character and never more than
/// the remaining input.
pub proof fn lemma_match_len_bounds(p: Pattern, s: Seq<char>, i: int)
    requires
        0 <= i < s.len(),
    ensures
        match_len(p, s, i) matches Some(n) ==> 1 <= n <= s.len() - i,
{
    match p {
        Pattern::Symbol => {
            lemma_run_len_bounds(s, i + 1, CharClass::IdentContinue);
        },
        Pattern::Number => {
            lemma_run_len_bounds(s, i, CharClass::Digit);
            if class_holds(CharClass::Digit, s[i]) {
                lemma_run_len_bounds(s, i + 1, CharClass::Digit);
                assert(run_len(s, i, CharClass::Digit) == 1 + run_len(s, i + 1, CharClass::Digit));
                let j = i + run_len(s, i, CharClass::Digit);
                if j + 1 < s.len() && s[j] == '.' && class_holds(CharClass::Digit, s[j + 1]) {
                    lemma_run_len_bounds(s, j + 1, CharClass::Digit);
                }
            }
        },
        Pattern::Whitespace => {
            lemma_run_len_bounds(s, i, CharClass::Space);
            if class_holds(CharClass::Space, s[i]) {
                lemma_run_len_bounds(s, i + 1, CharClass::Space);
                assert(run_len(s, i, CharClass::Space) == 1 + run_len(s, i + 1, CharClass::Space));
            }
        },
        Pattern::StringLit => {
            lemma_run_len_bounds(s, i + 1, CharClass::NotQuote);
        },
        Pattern::Comment => {
            if s[i] == '/' && i + 1 < s.len() && s[i + 1] == '/' {
                lemma_run_len_bounds(s, i + 2, CharClass::NotNewline);
            }
        },
        Pattern::Fixed(c1, oc2, _) => {},
    }
}

/// Tries one rule at offset `i`, returning how much it would consume.
pub fn try_match(p: Pattern, src: &Vec<char>, i: usize) -> (r: Option<usize>)
    requires
        i < src@.len(),
    ensures
        match r {
            Some(n) => match_len(p, src@, i as int) == Some(n as int),
            None => match_len(p, src@, i as int) is None,
        },
{
    let slen: usize = src.len();
    match p {
        Pattern::Symbol => {
            if char_in_class(CharClass::IdentStart, src[i]) {
                let end = scan_run(src, i + 1, CharClass::IdentContinue);
                Some(end - i)
            } else {
                None
            }
        },
        Pattern::Number => {
            if char_in_class(CharClass::Digit, src[i]) {
                let j = scan_run(src, i, CharClass::Digit);
                if j < src.len() && src[j] == '.' && j + 1 < src.len() && char_in_class(
                    CharClass::Digit,
                    src[j + 1],
                ) {
                    let end = scan_run(src, j + 1, CharClass::Digit);
                    Some(end - i)
                } else {
                    Some(j - i)
                }
            } else {
                None
            }
        },
        Pattern::Whitespace => {
            if char_in_class(CharClass::Space, src[i]) {
                let end = scan_run(src, i, CharClass::Space);
                Some(end - i)
            } else {
                None
            }
        },
        Pattern::StringLit => {
            if src[i] == '"' {
                let close = scan_run(src, i + 1, CharClass::NotQuote);
                if close < src.len() {
                    Some(close + 1 - i)
                } else {
                    None
                }
            } else {
                None
            }
        },
        Pattern::Comment => {
            if src[i] == '/' && i + 1 < src.len() && src[i + 1] == '/' {
                let end = scan_run(src, i + 2, CharClass::NotNewline);
                Some(end - i)
            } else {
                None
            }
        },
        Pattern::Fixed(c1, oc2, _) => {
            match oc2 {
                None => {
                    if src[i] == c1 {
                        Some(1)
                    } else {
                        None
                    }
                },
                Some(c2) => {
                    if src[i] == c1 && i + 1 < src.len() && src[i + 1] == c2 {
                        Some(2)
                    } else {
                        None
                    }
                },
            }
        },
    }
}

pub open spec fn is_hex_digit(c: char) -> bool {
    ('0' <= c && c <= '9') || ('a' <= c && c <= 'f') || ('A' <= c && c <= 'F')
}

/// The numeric value of one hex digit.
pub open spec fn hex_digit_val(c: char) -> int {
    if '0' <= c && c <= '9' {
        c as int - '0' as int
    } else if 'a' <= c && c <= 'f' {
        10 + c as int - 'a' as int
    } else {
        10 + c as int - 'A' as int
    }
}

/// The character whose code is the byte value of the given hex digits.
pub open spec fn hex_pair_char(hi: char, lo: char) -> char {
    ((hex_digit_val(hi) * 16 + hex_digit_val(lo)) as u8) as char
}

pub open spec fn hex_single_char(d: char) -> char {
    (hex_digit_val(d) as u8) as char
}

/// The escape decoding applied to the interior of a string literal, left to
/// right: `\n` `\t` `\\` `\r` `\"` `\0` become their control characters,
/// `\x` followed by up to two hex digits becomes the character with that
/// byte value (with no hex digit at all it decodes to the NUL character),
/// a backslash before any other character, or a trailing lone backslash, is
/// kept literally, and every other character is copied verbatim.
pub open spec fn decode_escapes(s: Seq<char>) -> Seq<char>
    decreases s.len(),
{
    if s.len() == 0 {
        Seq::empty()
    } else if s[0] != '\\' {
        seq![s[0]] + decode_escapes(s.skip(1))
    } else if s.len() == 1 {
        seq!['\\']
    } else if s[1] == 'n' {
        seq!['\n'] + decode_escapes(s.skip(2))
    } else if s[1] == 't' {
        seq!['\t'] + decode_escapes(s.skip(2))
    } else if s[1] == '\\' {
        seq!['\\'] + decode_escapes(s.skip(2))
    } else if s[1] == 'r' {
        seq!['\r'] + decode_escapes(s.skip(2))
    } else if s[1] == '"' {
        seq!['"'] + decode_escapes(s.skip(2))
    } else if s[1] == '0' {
        seq!['\0'] + decode_escapes(s.skip(2))
    } else if s[1] == 'x' {
        if s.len() > 2 && is_hex_digit(s[2]) {
            if s.len() > 3 && is_hex_digit(s[3]) {
                seq![hex_pair_char(s[2], s[3])] + decode_escapes(s.skip(4))
            } else {
                seq![hex_single_char(s[2])] + decode_escapes(s.skip(3))
            }
        } else {
            seq!['\0'] + decode_escapes(s.skip(2))
        }
    } else {
        seq!['\\'] + decode_escapes(s.skip(1))
    }
}

fn is_hex_digit_exec(c: char) -> (r: bool)
    ensures
        r == is_hex_digit(c),
{
    ('0' <= c && c <= '9') || ('a' <= c && c <= 'f') || ('A' <= c && c <= 'F')
}

fn hex_digit_val_exec(c: char) -> (r: u8)
    requires
        is_hex_digit(c),
    ensures
        r as int == hex_digit_val(c),
        r < 16,
{
    if '0' <= c && c <= '9' {
        (c as u8) - ('0' as u8)
    } else if 'a' <= c && c <= 'f' {
        10 + (c as u8) - ('a' as u8)
    } else {
        10 + (c as u8) - ('A' as u8)
    }
}

/// Copies the characters `[start, end)` of the buffer into a fresh string.
pub fn substring_string(src: &Vec<char>, start: usize, end: usize) -> (r: String)
    requires
        start <= end <= src@.len(),
    ensures
        r@ == src@.subrange(start as int, end as int),
{
    let mut r = String::new();
    let mut j: usize = start;
    while j < end
        invariant
            start <= j <= end <= src@.len(),
            r@ == src@.subrange(start as int, j as int),
        decreases end - j,
    {
        push_char(&mut r, src[j]);
        j = j + 1;
        proof {
            assert(r@ =~= src@.subrange(start as int, j as int));
        }
    }
    r
}

/// Decodes the interior `[start, end)` of a matched string literal.
pub fn decode_escapes_exec(src: &Vec<char>, start: usize, end: usize) -> (r: String)
    requires
        start <= end <= src@.len(),
    ensures
        r@ == decode_escapes(src@.subrange(start as int, end as int)),
{
    let ghost whole = src@.subrange(start as int, end as int);
    let mut r = String::new();
    let mut j: usize = start;
    while j < end
        invariant
            start <= j <= end <= src@.len(),
            whole == src@.subrange(start as int, end as int),
            decode_escapes(whole) == r@ + decode_escapes(
                src@.subrange(j as int, end as int),
            ),
        decreases end - j,
    {
        let ghost rem = src@.subrange(j as int, end as int);
        proof {
            assert(rem[0] == src@[j as int]);
        }
        let c = src[j];
        if c != '\\' {
            push_char(&mut r, c);
            proof {
                assert(rem.skip(1) =~= src@.subrange(j + 1 as int, end as int));
                assert(decode_escapes(rem) == seq![c] + decode_escapes(rem.skip(1)));
            }
            j = j + 1;
        } else if j + 1 == end {
            push_char(&mut r, '\\');
            proof {
                assert(rem.len() == 1);
            }
            j = j + 1;
        } else {
            proof {
                assert(rem[1] == src@[j + 1 as int]);
            }
            let e = src[j + 1];
            if e == 'n' {
                push_char(&mut r, '\n');
                proof {
                    assert(rem.skip(2) =~= src@.subrange(j + 2 as int, end as int));
                }
                j = j + 2;
            } else if e == 't' {
                push_char(&mut r, '\t');
                proof {
                    assert(rem.skip(2) =~= src@.subrange(j + 2 as int, end as int));
                }
                j = j + 2;
            } else if e == '\\' {
                push_char(&mut r, '\\');
                proof {
                    assert(rem.skip(2) =~= src@.subrange(j + 2 as int, end as int));
                }
                j = j + 2;
            } else if e == 'r' {
                push_char(&mut r, '\r');
                proof {
                    assert(rem.skip(2) =~= src@.subrange(j + 2 as int, end as int));
                }
                j = j + 2;
            } else if e == '"' {
                push_char(&mut r, '"');
                proof {
                    assert(rem.skip(2) =~= src@.subrange(j + 2 as int, end as int));
                }
                j = j + 2;
            } else if e == '0' {
                push_char(&mut r, '\0');
                proof {
                    assert(rem.skip(2) =~= src@.subrange(j + 2 as int, end as int));
                }
                j = j + 2;
            } else if e == 'x' {
                if j + 2 < end && is_hex_digit_exec(src[j + 2]) {
                    proof {
                        assert(rem[2] == src@[j + 2 as int]);
                    }
                    if j + 3 < end && is_hex_digit_exec(src[j + 3]) {
                        proof {
                            assert(rem[3] == src@[j + 3 as int]);
                        }
                        let hi = hex_digit_val_exec(src[j + 2]);
                        let lo = hex_digit_val_exec(src[j + 3]);
                        let v: u8 = hi * 16 + lo;
                        push_char(&mut r, v as char);
                        proof {
                            assert(v as char == hex_pair_char(src@[j + 2 as int], src@[j + 3 as int]));
                            assert(rem.skip(4) =~= src@.subrange(j + 4 as int, end as int));
                        }
                        j = j + 4;
                    } else {
                        let hi = hex_digit_val_exec(src[j + 2]);
                        push_char(&mut r, hi as char);
                        proof {
                            assert(hi as char == hex_single_char(src@[j + 2 as int]));
                            assert(rem.skip(3) =~= src@.subrange(j + 3 as int, end as int));
                        }
                        j = j + 3;
                    }
                } else {
                    push_char(&mut r, '\0');
                    proof {
                        assert(rem.skip(2) =~= src@.subrange(j + 2 as int, end as int));
                    }
                    j = j + 2;
                }
            } else {
                push_char(&mut r, '\\');
                proof {
                    assert(rem.skip(1) =~= src@.subrange(j + 1 as int, end as int));
                }
                j = j + 1;
            }
        }
        proof {
            assert(decode_escapes(whole) == r@ + decode_escapes(
                src@.subrange(j as int, end as int),
            ));
        }
    }
    proof {
        assert(src@.subrange(j as int, end as int).len() == 0);
        assert(decode_escapes(src@.subrange(j as int, end as int)) == Seq::<char>::empty());
        assert(decode_escapes(whole) =~= r@);
    }
    r
}

/// The outcome of one dispatch at a cursor position: a token emitted and the
/// cursor advanced, the cursor advanced with no token (whitespace, comments),
/// or failure because no rule matched.
pub enum SpecStep {
    Emit { token: SpecToken, next: int },
    Skip { next: int },
    Fail,
}

pub open spec fn fixed_emit(kind: TokenKind, lexeme: Seq<char>, i: int, n: int) -> SpecStep {
    SpecStep::Emit {
        token: SpecToken { kind, lexeme, start: i, end: i + n },
        next: i + n,
    }
}

/// One dispatch of the pattern table at offset `i` of `s` (meaningful for
/// `0 <= i < s.len()`): the rules are tried in declared priority order and
/// the first that matches at offset `i` decides the outcome. The order below
/// is the table; it is a correctness invariant that every multi-character
/// operator stands before its single-character prefix (`==` before `=`,
/// `<=` before `<`, ...) and that the comment rule stands before `/`, so the
/// longer form is always preferred (maximal munch).
///
/// A string literal's token carries the decoded interior as its lexeme, but
/// its span is the original matched region `[i, i+n)` of the source, so that
/// spans always reflect source extent and stay in order.
pub open spec fn spec_step(s: Seq<char>, i: int) -> SpecStep {
    if match_len(Pattern::Symbol, s, i) is Some {
        let n = match_len(Pattern::Symbol, s, i)->Some_0;
        let lex = s.subrange(i, i + n);
        SpecStep::Emit {
            token: SpecToken { kind: reserved_kind(lex), lexeme: lex, start: i, end: i + n },
            next: i + n,
        }
    } else if match_len(Pattern::Number, s, i) is Some {
        let n = match_len(Pattern::Number, s, i)->Some_0;
        SpecStep::Emit {
            token: SpecToken {
                kind: TokenKind::Number,
                lexeme: s.subrange(i, i + n),
                start: i,
                end: i + n,
            },
            next: i + n,
        }
    } else if match_len(Pattern::Whitespace, s, i) is Some {
        SpecStep::Skip { next: i + match_len(Pattern::Whitespace, s, i)->Some_0 }
    } else if match_len(Pattern::StringLit, s, i) is Some {
        let n = match_len(Pattern::StringLit, s, i)->Some_0;
        SpecStep::Emit {
            token: SpecToken {
                kind: TokenKind::String,
                lexeme: decode_escapes(s.subrange(i + 1, i + n - 1)),
                start: i,
                end: i + n,
            },
            next: i + n,
        }
    } else if match_len(Pattern::Comment, s, i) is Some {
        SpecStep::Skip { next: i + match_len(Pattern::Comment, s, i)->Some_0 }
    } else if match_len(Pattern::Fixed('[', None, TokenKind::OpenBracket), s, i) is Some {
        fixed_emit(TokenKind::OpenBracket, "["@, i, 1)
    } else if match_len(Pattern::Fixed(']', None, TokenKind::CloseBracket), s, i) is Some {
        fixed_emit(TokenKind::CloseBracket, "]"@, i, 1)
    } else if match_len(Pattern::Fixed('{', None, TokenKind::OpenCurly), s, i) is Some {
        fixed_emit(TokenKind::OpenCurly, "{"@, i, 1)
    } else if match_len(Pattern::Fixed('}', None, TokenKind::CloseCurly), s, i) is Some {
        fixed_emit(TokenKind::CloseCurly, "}"@, i, 1)
    } else if match_len(Pattern::Fixed('(', None, TokenKind::OpenParen), s, i) is Some {
        fixed_emit(TokenKind::OpenParen, "("@, i, 1)
    } else if match_len(Pattern::Fixed(')', None, TokenKind::CloseParen), s, i) is Some {
        fixed_emit(TokenKind::CloseParen, ")"@, i, 1)
    } else if match_len(Pattern::Fixed('=', Some('='), TokenKind::Equals), s, i) is Some {
        fixed_emit(TokenKind::Equals, "=="@, i, 2)
    } else if match_len(Pattern::Fixed('!', Some('='), TokenKind::NotEquals), s, i) is Some {
        fixed_emit(TokenKind::NotEquals, "!="@, i, 2)
    } else if match_len(Pattern::Fixed('!', None, TokenKind::Not), s, i) is Some {
        fixed_emit(TokenKind::Not, "!"@, i, 1)
    } else if match_len(Pattern::Fixed('=', None, TokenKind::Assignment), s, i) is Some {
        fixed_emit(TokenKind::Assignment, "="@, i, 1)
    } else if match_len(Pattern::Fixed('<', Some('='), TokenKind::LessEquals), s, i) is Some {
        fixed_emit(TokenKind::LessEquals, "<="@, i, 2)
    } else if match_len(Pattern::Fixed('<', None, TokenKind::Less), s, i) is Some {
        fixed_emit(TokenKind::Less, "<"@, i, 1)
    } else if match_len(Pattern::Fixed('>', Some('='), TokenKind::GreaterEquals), s, i) is Some {
        fixed_emit(TokenKind::GreaterEquals, ">="@, i, 2)
    } else if match_len(Pattern::Fixed('>', None, TokenKind::Greater), s, i) is Some {
        fixed_emit(TokenKind::Greater, ">"@, i, 1)
    } else if match_len(Pattern::Fixed('|', Some('|'), TokenKind::Or), s, i) is Some {
        fixed_emit(TokenKind::Or, "||"@, i, 2)
    } else if match_len(Pattern::Fixed('&', Some('&'), TokenKind::And), s, i) is Some {
        fixed_emit(TokenKind::And, "&&"@, i, 2)
    } else if match_len(Pattern::Fixed('.', None, TokenKind::Dot), s, i) is Some {
        fixed_emit(TokenKind::Dot, "."@, i, 1)
    } else if match_len(Pattern::Fixed(';', None, TokenKind::Semicolon), s, i) is Some {
        fixed_emit(TokenKind::Semicolon, ";"@, i, 1)
    } else if match_len(Pattern::Fixed(':', None, TokenKind::Colon), s, i) is Some {
        fixed_emit(TokenKind::Colon, ":"@, i, 1)
    } else if match_len(Pattern::Fixed('?', None, TokenKind::Question), s, i) is Some {
        fixed_emit(TokenKind::Question, "?"@, i, 1)
    } else if match_len(Pattern::Fixed(',', None, TokenKind::Comma), s, i) is Some {
        fixed_emit(TokenKind::Comma, ","@, i, 1)
    } else if match_len(Pattern::Fixed('+', Some('+'), TokenKind::PlusPlus), s, i) is Some {
        fixed_emit(TokenKind::PlusPlus, "++"@, i, 2)
    } else if match_len(Pattern::Fixed('-', Some('>'), TokenKind::Arrow), s, i) is Some {
        fixed_emit(TokenKind::Arrow, "->"@, i, 2)
    } else if match_len(Pattern::Fixed('-', Some('-'), TokenKind::MinusMinus), s, i) is Some {
        fixed_emit(TokenKind::MinusMinus, "--"@, i, 2)
    } else if match_len(Pattern::Fixed('+', Some('='), TokenKind::PlusEquals), s, i) is Some {
        fixed_emit(TokenKind::PlusEquals, "+="@, i, 2)
    } else if match_len(Pattern::Fixed('-', Some('='), TokenKind::MinusEquals), s, i) is Some {
        fixed_emit(TokenKind::MinusEquals, "-="@, i, 2)
    } else if match_len(Pattern::Fixed('+', None, TokenKind::Plus), s, i) is Some {
        fixed_emit(TokenKind::Plus, "+"@, i, 1)
    } else if match_len(Pattern::Fixed('-', None, TokenKind::Dash), s, i) is Some {
        fixed_emit(TokenKind::Dash, "-"@, i, 1)
    } else if match_len(Pattern::Fixed('/', None, TokenKind::Slash), s, i) is Some {
        fixed_emit(TokenKind::Slash, "/"@, i, 1)
    } else if match_len(Pattern::Fixed('*', None, TokenKind::Star), s, i) is Some {
        fixed_emit(TokenKind::Star, "*"@, i, 1)
    } else if match_len(Pattern::Fixed('%', None, TokenKind::Percent), s, i) is Some {
        fixed_emit(TokenKind::Percent, "%"@, i, 1)
    } else {
        SpecStep::Fail
    }
}

/// The executable counterpart of a dispatch outcome.
pub enum StepOutcome {
    Emit { token: Token, next: usize },
    Skip { next: usize },
    Fail,
}

/// The executable outcome agrees with the mathematical one.
pub open spec fn outcome_matches(sp: SpecStep, r: StepOutcome) -> bool {
    match r {
        StepOutcome::Emit { token, next } => sp matches SpecStep::Emit { token: st, next: sn }
            && token@ == st && next as int == sn,
        StepOutcome::Skip { next } => sp matches SpecStep::Skip { next: sn } && next as int == sn,
        StepOutcome::Fail => sp is Fail,
    }
}

/// Builds the outcome for a fixed punctuation or operator rule.
fn fixed_step(kind: TokenKind, text: &str, i: usize, n: usize) -> (r: StepOutcome)
    requires
        i + n <= usize::MAX,
    ensures
        r matches StepOutcome::Emit { token, next } && token@ == (SpecToken {
            kind,
            lexeme: text@,
            start: i as int,
            end: i as int + n as int,
        }) && next == i + n,
{
    StepOutcome::Emit {
        token: Token { kind, lexeme: text.to_owned(), span: Span { start: i, end: i + n } },
        next: i + n,
    }
}

/// One dispatch at cursor `i`: tries the rules in table order against the
/// unconsumed suffix and applies the first match, exactly as `spec_step`
/// describes.
pub fn step(src: &Vec<char>, i: usize) -> (r: StepOutcome)
    requires
        i < src@.len(),
    ensures
        outcome_matches(spec_step(src@, i as int), r),
{
    let slen: usize = src.len();
    if let Some(n) = try_match(Pattern::Symbol, src, i) {
        proof {
            lemma_match_len_bounds(Pattern::Symbol, src@, i as int);
        }
        let lexeme = substring_string(src, i, i + n);
        let kind = match reserved_lookup(&lexeme) {
            Some(k) => k,
            None => TokenKind::Identifier,
        };
        StepOutcome::Emit {
            token: Token { kind, lexeme, span: Span { start: i, end: i + n } },
            next: i + n,
        }
    } else if let Some(n) = try_match(Pattern::Number, src, i) {
        proof {
            lemma_match_len_bounds(Pattern::Number, src@, i as int);
        }
        let lexeme = substring_string(src, i, i + n);
        StepOutcome::Emit {
            token: Token { kind: TokenKind::Number, lexeme, span: Span { start: i, end: i + n } },
            next: i + n,
        }
    } else if let Some(n) = try_match(Pattern::Whitespace, src, i) {
        proof {
            lemma_match_len_bounds(Pattern::Whitespace, src@, i as int);
        }
        StepOutcome::Skip { next: i + n }
    } else if let Some(n) = try_match(Pattern::StringLit, src, i) {
        proof {
            lemma_match_len_bounds(Pattern::StringLit, src@, i as int);
            lemma_run_len_bounds(src@, i + 1, CharClass::NotQuote);
        }
        let lexeme = decode_escapes_exec(src, i + 1, i + n - 1);
        StepOutcome::Emit {
            token: Token { kind: TokenKind::String, lexeme, span: Span { start: i, end: i + n } },
            next: i + n,
        }
    } else if let Some(n) = try_match(Pattern::Comment, src, i) {
        proof {
            lemma_match_len_bounds(Pattern::Comment, src@, i as int);
        }
        StepOutcome::Skip { next: i + n }
    } else if try_match(Pattern::Fixed('[', None, TokenKind::OpenBracket), src, i).is_some() {
        fixed_step(TokenKind::OpenBracket, "[", i, 1)
    } else if try_match(Pattern::Fixed(']', None, TokenKind::CloseBracket), src, i).is_some() {
        fixed_step(TokenKind::CloseBracket, "]", i, 1)
    } else if try_match(Pattern::Fixed('{', None, TokenKind::OpenCurly), src, i).is_some() {
        fixed_step(TokenKind::OpenCurly, "{", i, 1)
    } else if try_match(Pattern::Fixed('}', None, TokenKind::CloseCurly), src, i).is_some() {
        fixed_step(TokenKind::CloseCurly, "}", i, 1)
    } else if try_match(Pattern::Fixed('(', None, TokenKind::OpenParen), src, i).is_some() {
        fixed_step(TokenKind::OpenParen, "(", i, 1)
    } else if try_match(Pattern::Fixed(')', None, TokenKind::CloseParen), src, i).is_some() {
        fixed_step(TokenKind::CloseParen, ")", i, 1)
    } else if try_match(Pattern::Fixed('=', Some('='), TokenKind::Equals), src, i).is_some() {
        fixed_step(TokenKind::Equals, "==", i, 2)
    } else if try_match(Pattern::Fixed('!', Some('='), TokenKind::NotEquals), src, i).is_some() {
        fixed_step(TokenKind::NotEquals, "!=", i, 2)
    } else if try_match(Pattern::Fixed('!', None, TokenKind::Not), src, i).is_some() {
        fixed_step(TokenKind::Not, "!", i, 1)
    } else if try_match(Pattern::Fixed('=', None, TokenKind::Assignment), src, i).is_some() {
        fixed_step(TokenKind::Assignment, "=", i, 1)
    } else if try_match(Pattern::Fixed('<', Some('='), TokenKind::LessEquals), src, i).is_some() {
        fixed_step(TokenKind::LessEquals, "<=", i, 2)
    } else if try_match(Pattern::Fixed('<', None, TokenKind::Less), src, i).is_some() {
        fixed_step(TokenKind::Less, "<", i, 1)
    } else if try_match(Pattern::Fixed('>', Some('='), TokenKind::GreaterEquals), src, i).is_some() {
        fixed_step(TokenKind::GreaterEquals, ">=", i, 2)
    } else if try_match(Pattern::Fixed('>', None, TokenKind::Greater), src, i).is_some() {
        fixed_step(TokenKind::Greater, ">", i, 1)
    } else if try_match(Pattern::Fixed('|', Some('|'), TokenKind::Or), src, i).is_some() {
        fixed_step(TokenKind::Or, "||", i, 2)
    } else if try_match(Pattern::Fixed('&', Some('&'), TokenKind::And), src, i).is_some() {
        fixed_step(TokenKind::And, "&&", i, 2)
    } else if try_match(Pattern::Fixed('.', None, TokenKind::Dot), src, i).is_some() {
        fixed_step(TokenKind::Dot, ".", i, 1)
    } else if try_match(Pattern::Fixed(';', None, TokenKind::Semicolon), src, i).is_some() {
        fixed_step(TokenKind::Semicolon, ";", i, 1)
    } else if try_match(Pattern::Fixed(':', None, TokenKind::Colon), src, i).is_some() {
        fixed_step(TokenKind::Colon, ":", i, 1)
    } else if try_match(Pattern::Fixed('?', None, TokenKind::Question), src, i).is_some() {
        fixed_step(TokenKind::Question, "?", i, 1)
    } else if try_match(Pattern::Fixed(',', None, TokenKind::Comma), src, i).is_some() {
        fixed_step(TokenKind::Comma, ",", i, 1)
    } else if try_match(Pattern::Fixed('+', Some('+'), TokenKind::PlusPlus), src, i).is_some() {
        fixed_step(TokenKind::PlusPlus, "++", i, 2)
    } else if try_match(Pattern::Fixed('-', Some('>'), TokenKind::Arrow), src, i).is_some() {
        fixed_step(TokenKind::Arrow, "->", i, 2)
    } else if try_match(Pattern::Fixed('-', Some('-'), TokenKind::MinusMinus), src, i).is_some() {
        fixed_step(TokenKind::MinusMinus, "--", i, 2)
    } else if try_match(Pattern::Fixed('+', Some('='), TokenKind::PlusEquals), src, i).is_some() {
        fixed_step(TokenKind::PlusEquals, "+=", i, 2)
    } else if try_match(Pattern::Fixed('-', Some('='), TokenKind::MinusEquals), src, i).is_some() {
        fixed_step(TokenKind::MinusEquals, "-=", i, 2)
    } else if try_match(Pattern::Fixed('+', None, TokenKind::Plus), src, i).is_some() {
        fixed_step(TokenKind::Plus, "+", i, 1)
    } else if try_match(Pattern::Fixed('-', None, TokenKind::Dash), src, i).is_some() {
        fixed_step(TokenKind::Dash, "-", i, 1)
    } else if try_match(Pattern::Fixed('/', None, TokenKind::Slash), src, i).is_some() {
        fixed_step(TokenKind::Slash, "/", i, 1)
    } else if try_match(Pattern::Fixed('*', None, TokenKind::Star), src, i).is_some() {
        fixed_step(TokenKind::Star, "*", i, 1)
    } else if try_match(Pattern::Fixed('%', None, TokenKind::Percent), src, i).is_some() {
        fixed_step(TokenKind::Percent, "%", i, 1)
    } else {
        StepOutcome::Fail
    }
}

/// A rule that fires always advances the cursor by at least one character
/// and never past the end of the input.
pub proof fn lemma_step_next(s: Seq<char>, i: int)
    requires
        0 <= i < s.len(),
    ensures
        spec_step(s, i) matches SpecStep::Skip { next } ==> i < next <= s.len(),
        spec_step(s, i) matches SpecStep::Emit { token, next } ==> i < next <= s.len(),
{
    assert forall|p: Pattern| (#[trigger] match_len(p, s, i)) is Some implies 1 <= match_len(
        p,
        s,
        i,
    )->Some_0 <= s.len() - i by {
        lemma_match_len_bounds(p, s, i);
    }
}

/// The terminal token appended after a successful pass: the end-of-file
/// marker, with an empty span at the final cursor position.
pub open spec fn spec_eof_token(end: int) -> SpecToken {
    SpecToken { kind: TokenKind::EOF, lexeme: "EOF"@, start: end, end: end }
}

/// The whole scan of `s` from cursor `i` on: on success the tokens emitted
/// from there, ending in the end-of-file token; on failure the position of
/// the first character at which no rule matched.
pub open spec fn scan_from(s: Seq<char>, i: int) -> Result<Seq<SpecToken>, int>
    decreases s.len() - i
        when 0 <= i <= s.len()
        via scan_from_dec
{
    if i >= s.len() {
        Ok(seq![spec_eof_token(s.len() as int)])
    } else {
        match spec_step(s, i) {
            SpecStep::Fail => Err(i),
            SpecStep::Skip { next } => scan_from(s, next),
            SpecStep::Emit { token, next } => match scan_from(s, next) {
                Ok(rest) => Ok(seq![token] + rest),
                Err(e) => Err(e),
            },
        }
    }
}

#[via_fn]
proof fn scan_from_dec(s: Seq<char>, i: int) {
    if 0 <= i < s.len() {
        lemma_step_next(s, i);
    }
}

/// The result of the whole pass over `s`: the full token sequence, or the
/// position of the first unscannable character.
pub open spec fn spec_tokenize(s: Seq<char>) -> Result<Seq<SpecToken>, int> {
    scan_from(s, 0)
}

/// Already-emitted tokens prepended to the outcome of the rest of the scan.
pub open spec fn prepend_tokens(ts: Seq<SpecToken>, r: Result<Seq<SpecToken>, int>) -> Result<
    Seq<SpecToken>,
    int,
> {
    match r {
        Ok(rest) => Ok(ts + rest),
        Err(e) => Err(e),
    }
}

/// The scanner state: it owns the source buffer (held as one character per
/// source byte), the single monotonically advancing cursor, and the
/// accumulated output sequence.
pub struct Lexer {
    source: Vec<char>,
    position: usize,
    output: Vec<Token>,
}

/// The mathematical image of the scanner state.
pub struct SpecLexer {
    pub source: Seq<char>,
    pub position: int,
    pub output: Seq<SpecToken>,
}

impl View for Lexer {
    type V = SpecLexer;

    closed spec fn view(&self) -> SpecLexer {
        SpecLexer {
            source: self.source@,
            position: self.position as int,
            output: self.output@.map_values(|t: Token| t@),
        }
    }
}

impl Lexer {
    /// A fresh scanner over `source`, at cursor 0 with no output yet.
    pub fn new(source: String) -> (r: Self)
        ensures
            r@.source == source@,
            r@.position == 0,
            r@.output == Seq::<SpecToken>::empty(),
    {
        let s = source.as_str();
        let n = s.unicode_len();
        let mut chars: Vec<char> = Vec::new();
        let mut i: usize = 0;
        while i < n
            invariant
                i <= n,
                n == s@.len(),
                s@ == source@,
                chars@ == source@.subrange(0, i as int),
            decreases n - i,
        {
            chars.push(s.get_char(i));
            i = i + 1;
            proof {
                assert(chars@ =~= source@.subrange(0, i as int));
            }
        }
        proof {
            assert(chars@ =~= source@);
            assert(Seq::<Token>::empty().map_values(|t: Token| t@) =~= Seq::<SpecToken>::empty());
        }
        Lexer { source: chars, position: 0, output: Vec::new() }
    }

    /// Advances the cursor by `n` characters.
    pub fn advance_n(&mut self, n: usize)
        requires
            old(self)@.position + n <= old(self)@.source.len(),
        ensures
            final(self)@ == (SpecLexer { position: old(self)@.position + n, ..old(self)@ }),
    {
        let slen: usize = self.source.len();
        self.position = self.position + n;
    }

    /// Whether the cursor has consumed the whole source.
    pub fn is_at_eof(&self) -> (r: bool)
        ensures
            r == (self@.position >= self@.source.len()),
    {
        self.position >= self.source.len()
    }

    /// The character at the cursor.
    pub fn at(&self) -> (r: char)
        requires
            self@.position < self@.source.len(),
        ensures
            r == self@.source[self@.position],
    {
        self.source[self.position]
    }

    /// A copy of the unconsumed suffix of the source.
    pub fn remainder(&self) -> (r: Vec<char>)
        requires
            self@.position <= self@.source.len(),
        ensures
            r@ == self@.source.skip(self@.position),
    {
        let mut r: Vec<char> = Vec::new();
        let mut j: usize = self.position;
        while j < self.source.len()
            invariant
                self@.position <= j <= self@.source.len(),
                r@ == self@.source.subrange(self@.position, j as int),
            decreases self@.source.len() - j,
        {
            r.push(self.source[j]);
            j = j + 1;
            proof {
                assert(r@ =~= self@.source.subrange(self@.position, j as int));
            }
        }
        proof {
            assert(r@ =~= self@.source.skip(self@.position));
        }
        r
    }

    /// Appends one token to the output sequence.
    pub fn push(&mut self, token: Token)
        ensures
            final(self)@ == (SpecLexer { output: old(self)@.output.push(token@), ..old(self)@ }),
    {
        self.output.push(token);
        proof {
            assert(self.output@.map_values(|t: Token| t@) =~= old(self)@.output.push(token@));
        }
    }
}

/// Scans the whole source into its token sequence. On success the result
/// holds every emitted token in source order, terminated by exactly one
/// end-of-file token; on the first position where no rule matches, the pass
/// aborts with an `UnrecognisedToken` error carrying that character and its
/// one-character span, and no partial output.
pub fn tokenize(source: String) -> (r: Result<Vec<Token>, Error>)
    ensures
        match spec_tokenize(source@) {
            Ok(toks) => r matches Ok(out) && out@.map_values(|t: Token| t@) == toks,
            Err(pos) => r matches Err(e) && e.spec_span() == (Span {
                start: pos as usize,
                end: (pos + 1) as usize,
            }) && (e.spec_error() matches ErrorImpl::UnrecognisedToken { token } && token@ == seq![
                source@[pos],
            ]),
        },
{
    let mut lex = Lexer::new(source);
    let ghost src = lex@.source;
    while !lex.is_at_eof()
        invariant
            lex@.source == src,
            src == source@,
            0 <= lex@.position <= src.len(),
            scan_from(src, 0) == prepend_tokens(lex@.output, scan_from(src, lex@.position)),
        decreases src.len() - lex@.position,
    {
        let ghost prev = lex@;
        let pos = lex.position;
        match step(&lex.source, pos) {
            StepOutcome::Emit { token, next } => {
                proof {
                    lemma_step_next(src, pos as int);
                }
                lex.push(token);
                lex.position = next;
                proof {
                    let st = spec_step(src, pos as int)->Emit_token;
                    assert(lex@.output =~= prev.output.push(token@));
                    if scan_from(src, next as int) is Ok {
                        let rest = scan_from(src, next as int)->Ok_0;
                        assert(scan_from(src, pos as int) == Ok::<Seq<SpecToken>, int>(
                            seq![st] + rest,
                        ));
                        assert(prev.output + (seq![st] + rest) =~= prev.output.push(st) + rest);
                    }
                }
            },
            StepOutcome::Skip { next } => {
                proof {
                    lemma_step_next(src, pos as int);
                }
                lex.position = next;
            },
            StepOutcome::Fail => {
                let slen: usize = lex.source.len();
                let ch = lex.at();
                let mut tokstr = String::new();
                push_char(&mut tokstr, ch);
                proof {
                    assert(tokstr@ =~= seq![src[pos as int]]);
                    assert(scan_from(src, pos as int) == Err::<Seq<SpecToken>, int>(pos as int));
                }
                return Err(
                    Error::new(
                        ErrorImpl::UnrecognisedToken { token: tokstr },
                        Span { start: pos, end: pos + 1 },
                    ),
                );
            },
        }
    }
    let pos = lex.position;
    let eof_tok = Token {
        kind: TokenKind::EOF,
        lexeme: "EOF".to_owned(),
        span: Span { start: pos, end: pos },
    };
    lex.push(eof_tok);
    proof {
        assert(pos as int == src.len());
        assert(scan_from(src, pos as int) == Ok::<Seq<SpecToken>, int>(
            seq![spec_eof_token(src.len() as int)],
        ));
        assert(lex@.output =~= lex@.output.subrange(0, lex@.output.len() - 1) + seq![
            spec_eof_token(src.len() as int),
        ]);
    }
    Ok(lex.output)
}

} // verus!
