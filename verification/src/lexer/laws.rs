use vstd::prelude::*;

use crate::lexer::lex::{
    CharClass, Pattern, SpecStep, class_holds, decode_escapes, match_len, run_len, scan_from,
    spec_eof_token, spec_step, spec_tokenize,
};
use crate::lexer::token::{SpecToken, TokenKind};

verus! {

/// Every character of a maximal run belongs to its class, and the run stops
/// only at the end of the input or at a character outside the class.
pub proof fn lemma_run_len_chars(s: Seq<char>, j: int, cc: CharClass)
    requires
        0 <= j <= s.len(),
    ensures
        forall|k: int| j <= k < j + run_len(s, j, cc) ==> class_holds(cc, s[k]),
        j + run_len(s, j, cc) == s.len() || !class_holds(cc, s[j + run_len(s, j, cc)]),
    decreases s.len() - j,
{
    if j < s.len() && class_holds(cc, s[j]) {
        lemma_run_len_chars(s, j + 1, cc);
    }
}

/// A run over characters that all belong to the class reaches the end.
pub proof fn lemma_run_len_full(s: Seq<char>, j: int, cc: CharClass)
    requires
        0 <= j <= s.len(),
        forall|k: int| j <= k < s.len() ==> class_holds(cc, s[k]),
    ensures
        run_len(s, j, cc) == s.len() - j,
    decreases s.len() - j,
{
    if j < s.len() {
        lemma_run_len_full(s, j + 1, cc);
    }
}

/// A token emitted by a dispatch spans exactly the consumed characters and is
/// never the end-of-file marker, which only the driver appends.
pub proof fn lemma_step_token(s: Seq<char>, i: int)
    requires
        0 <= i < s.len(),
    ensures
        spec_step(s, i) matches SpecStep::Emit { token, next } ==> token.start == i
            && token.end == next && token.kind != TokenKind::EOF,
{
}

/// On success, the scan of `s` from `i` emits at least the terminal token;
/// the last token is the end-of-file marker with an empty span at the input's
/// length; no other token is an end-of-file marker; and the tokens appear in
/// source order, with spans non-overlapping, non-decreasing and within the
/// input.
pub proof fn lemma_scan_output_shape(s: Seq<char>, i: int, toks: Seq<SpecToken>)
    requires
        0 <= i <= s.len(),
        scan_from(s, i) == Ok::<Seq<SpecToken>, int>(toks),
    ensures
        toks.len() >= 1,
        toks.last() == spec_eof_token(s.len() as int),
        forall|k: int| 0 <= k < toks.len() - 1 ==> toks[k].kind != TokenKind::EOF,
        forall|k: int| 0 <= k < toks.len() ==> i <= #[trigger] toks[k].start <= toks[k].end
            <= s.len(),
        forall|k: int| 0 <= k < toks.len() - 1 ==> #[trigger] toks[k].end <= toks[k + 1].start,
    decreases s.len() - i,
{
    if i >= s.len() {
    } else {
        crate::lexer::lex::lemma_step_next(s, i);
        lemma_step_token(s, i);
        match spec_step(s, i) {
            SpecStep::Fail => {},
            SpecStep::Skip { next } => {
                lemma_scan_output_shape(s, next, toks);
            },
            SpecStep::Emit { token, next } => {
                let rest = scan_from(s, next)->Ok_0;
                lemma_scan_output_shape(s, next, rest);
                assert(toks == seq![token] + rest);
                assert(forall|k: int| 0 <= k < rest.len() ==> toks[k + 1] == rest[k]);
            },
        }
    }
}

/// For every input made only of recognized constructs — that is, every input
/// the scan accepts — the output ends in exactly one end-of-file token whose
/// span is the empty range at the input's length.
pub proof fn lemma_tokenize_output_shape(s: Seq<char>, toks: Seq<SpecToken>)
    requires
        spec_tokenize(s) == Ok::<Seq<SpecToken>, int>(toks),
    ensures
        toks.len() >= 1,
        toks.last() == spec_eof_token(s.len() as int),
        forall|k: int| 0 <= k < toks.len() - 1 ==> toks[k].kind != TokenKind::EOF,
        forall|k: int| 0 <= k < toks.len() ==> 0 <= #[trigger] toks[k].start <= toks[k].end
            <= s.len(),
        forall|k: int| 0 <= k < toks.len() - 1 ==> #[trigger] toks[k].end <= toks[k + 1].start,
{
    lemma_scan_output_shape(s, 0, toks);
}

/// An input consisting of one character that no rule matches fails with the
/// offending position 0 — the error's span is exactly that character.
pub proof fn lemma_single_unscannable(c: char)
    requires
        spec_step(seq![c], 0) is Fail,
    ensures
        spec_tokenize(seq![c]) == Err::<Seq<SpecToken>, int>(0),
{
}

/// The spellings of the multi-character operators, paired with their kinds.
pub open spec fn two_op_kind(c1: char, c2: char) -> Option<TokenKind> {
    if c1 == '=' && c2 == '=' {
        Some(TokenKind::Equals)
    } else if c1 == '!' && c2 == '=' {
        Some(TokenKind::NotEquals)
    } else if c1 == '<' && c2 == '=' {
        Some(TokenKind::LessEquals)
    } else if c1 == '>' && c2 == '=' {
        Some(TokenKind::GreaterEquals)
    } else if c1 == '|' && c2 == '|' {
        Some(TokenKind::Or)
    } else if c1 == '&' && c2 == '&' {
        Some(TokenKind::And)
    } else if c1 == '+' && c2 == '+' {
        Some(TokenKind::PlusPlus)
    } else if c1 == '-' && c2 == '>' {
        Some(TokenKind::Arrow)
    } else if c1 == '-' && c2 == '-' {
        Some(TokenKind::MinusMinus)
    } else if c1 == '+' && c2 == '=' {
        Some(TokenKind::PlusEquals)
    } else if c1 == '-' && c2 == '=' {
        Some(TokenKind::MinusEquals)
    } else {
        None
    }
}

/// The maximal-munch guarantee of the rule-table ordering: wherever the two
/// characters of a multi-character operator stand adjacent in the input, the
/// dispatch emits that operator as a single two-character token — never the
/// one-character prefix followed by a second token.
pub proof fn lemma_maximal_munch(s: Seq<char>, i: int)
    requires
        0 <= i,
        i + 1 < s.len(),
        two_op_kind(s[i], s[i + 1]) is Some,
    ensures
        spec_step(s, i) matches SpecStep::Emit { token, next } && next == i + 2 && token.kind
            == two_op_kind(s[i], s[i + 1])->Some_0 && token.lexeme == seq![s[i], s[i + 1]]
            && token.start == i && token.end == i + 2,
{
    reveal_strlit("==");
    reveal_strlit("!=");
    reveal_strlit("<=");
    reveal_strlit(">=");
    reveal_strlit("||");
    reveal_strlit("&&");
    reveal_strlit("++");
    reveal_strlit("->");
    reveal_strlit("--");
    reveal_strlit("+=");
    reveal_strlit("-=");
    assert(spec_step(s, i) matches SpecStep::Emit { token, next } && token.lexeme =~= seq![
        s[i],
        s[i + 1],
    ]);
}

/// The spellings of the single-character operators and punctuation, paired
/// with their kinds.
pub open spec fn single_op_kind(c: char) -> Option<TokenKind> {
    if c == '[' {
        Some(TokenKind::OpenBracket)
    } else if c == ']' {
        Some(TokenKind::CloseBracket)
    } else if c == '{' {
        Some(TokenKind::OpenCurly)
    } else if c == '}' {
        Some(TokenKind::CloseCurly)
    } else if c == '(' {
        Some(TokenKind::OpenParen)
    } else if c == ')' {
        Some(TokenKind::CloseParen)
    } else if c == '!' {
        Some(TokenKind::Not)
    } else if c == '=' {
        Some(TokenKind::Assignment)
    } else if c == '<' {
        Some(TokenKind::Less)
    } else if c == '>' {
        Some(TokenKind::Greater)
    } else if c == '.' {
        Some(TokenKind::Dot)
    } else if c == ';' {
        Some(TokenKind::Semicolon)
    } else if c == ':' {
        Some(TokenKind::Colon)
    } else if c == '?' {
        Some(TokenKind::Question)
    } else if c == ',' {
        Some(TokenKind::Comma)
    } else if c == '+' {
        Some(TokenKind::Plus)
    } else if c == '-' {
        Some(TokenKind::Dash)
    } else if c == '/' {
        Some(TokenKind::Slash)
    } else if c == '*' {
        Some(TokenKind::Star)
    } else if c == '%' {
        Some(TokenKind::Percent)
    } else {
        None
    }
}

/// Dispatching on an input that consists of exactly one operator spelling
/// emits that operator and consumes the whole input.
pub proof fn lemma_op_step(lex: Seq<char>)
    requires
        (lex.len() == 1 && single_op_kind(lex[0]) is Some) || (lex.len() == 2 && two_op_kind(
            lex[0],
            lex[1],
        ) is Some),
    ensures
        spec_step(lex, 0) is Emit,
        spec_step(lex, 0)->Emit_next == lex.len(),
        lex.len() == 1 ==> spec_step(lex, 0)->Emit_token.kind == single_op_kind(lex[0])->Some_0,
        lex.len() == 2 ==> spec_step(lex, 0)->Emit_token.kind == two_op_kind(
            lex[0],
            lex[1],
        )->Some_0,
{
}

/// A dispatch that consumes the whole input scans to exactly that token
/// followed by the end-of-file token.
pub proof fn lemma_step_full_roundtrip(lex: Seq<char>)
    requires
        lex.len() > 0,
        spec_step(lex, 0) is Emit,
        spec_step(lex, 0)->Emit_next == lex.len(),
    ensures
        spec_tokenize(lex) == Ok::<Seq<SpecToken>, int>(
            seq![spec_step(lex, 0)->Emit_token, spec_eof_token(lex.len() as int)],
        ),
{
    assert(scan_from(lex, lex.len() as int) == Ok::<Seq<SpecToken>, int>(
        seq![spec_eof_token(lex.len() as int)],
    ));
    assert(seq![spec_step(lex, 0)->Emit_token] + seq![spec_eof_token(lex.len() as int)] =~= seq![
        spec_step(lex, 0)->Emit_token,
        spec_eof_token(lex.len() as int),
    ]);
}

/// The round-trip guarantee: for any punctuation, operator, keyword or
/// identifier token the scanner emits, re-scanning its lexeme alone
/// reproduces a token of the same kind, followed only by the end-of-file
/// token.
#[verifier::rlimit(60)]
pub proof fn lemma_round_trip(s: Seq<char>, i: int)
    requires
        0 <= i < s.len(),
        spec_step(s, i) is Emit,
        spec_step(s, i)->Emit_token.kind != TokenKind::Number,
        spec_step(s, i)->Emit_token.kind != TokenKind::String,
    ensures
        spec_tokenize(spec_step(s, i)->Emit_token.lexeme) matches Ok(ts) && ts.len() == 2
            && ts[0].kind == spec_step(s, i)->Emit_token.kind && ts[1].kind == TokenKind::EOF,
{
    let token = spec_step(s, i)->Emit_token;
    let lex = token.lexeme;
    if match_len(Pattern::Symbol, s, i) is Some {
        let n = match_len(Pattern::Symbol, s, i)->Some_0;
        crate::lexer::lex::lemma_match_len_bounds(Pattern::Symbol, s, i);
        assert(lex =~= s.subrange(i, i + n));
        lemma_run_len_chars(s, i + 1, CharClass::IdentContinue);
        assert(forall|k: int| 1 <= k < n ==> class_holds(CharClass::IdentContinue, lex[k]));
        assert(class_holds(CharClass::IdentStart, lex[0]));
        lemma_run_len_full(lex, 1, CharClass::IdentContinue);
        assert(match_len(Pattern::Symbol, lex, 0) == Some(n));
        assert(lex.subrange(0, n) =~= lex);
        lemma_step_full_roundtrip(lex);
    } else if match_len(Pattern::Number, s, i) is Some {
        // excluded: the emitted kind would be Number
    } else if match_len(Pattern::Whitespace, s, i) is Some {
        // vacuous: whitespace is a skip, not an emit
    } else if match_len(Pattern::StringLit, s, i) is Some {
        // excluded: the emitted kind would be String
    } else if match_len(Pattern::Comment, s, i) is Some {
        // vacuous: a comment is a skip, not an emit
    } else {
        // one of the fixed punctuation/operator rules fired
        reveal_strlit("[");
        reveal_strlit("]");
        reveal_strlit("{");
        reveal_strlit("}");
        reveal_strlit("(");
        reveal_strlit(")");
        reveal_strlit("==");
        reveal_strlit("!=");
        reveal_strlit("!");
        reveal_strlit("=");
        reveal_strlit("<=");
        reveal_strlit("<");
        reveal_strlit(">=");
        reveal_strlit(">");
        reveal_strlit("||");
        reveal_strlit("&&");
        reveal_strlit(".");
        reveal_strlit(";");
        reveal_strlit(":");
        reveal_strlit("?");
        reveal_strlit(",");
        reveal_strlit("++");
        reveal_strlit("->");
        reveal_strlit("--");
        reveal_strlit("+=");
        reveal_strlit("-=");
        reveal_strlit("+");
        reveal_strlit("-");
        reveal_strlit("/");
        reveal_strlit("*");
        reveal_strlit("%");
        assert((lex.len() == 1 && single_op_kind(lex[0]) is Some && single_op_kind(lex[0])->Some_0
            == token.kind) || (lex.len() == 2 && two_op_kind(lex[0], lex[1]) is Some && two_op_kind(
            lex[0],
            lex[1],
        )->Some_0 == token.kind));
        lemma_op_step(lex);
        lemma_step_full_roundtrip(lex);
    }
}

/// Whether some dispatch over `s` emits exactly the token `t`.
pub open spec fn emitted_somewhere(s: Seq<char>, t: SpecToken) -> bool {
    exists|j: int|
        0 <= j < s.len() && ((#[trigger] spec_step(s, j)) matches SpecStep::Emit { token, next }
            && token == t)
}

/// Every token of a successful scan except the terminal end-of-file marker
/// was emitted by a dispatch somewhere in the input.
pub proof fn lemma_scan_tokens_from_steps(s: Seq<char>, i: int, toks: Seq<SpecToken>)
    requires
        0 <= i <= s.len(),
        scan_from(s, i) == Ok::<Seq<SpecToken>, int>(toks),
    ensures
        forall|k: int| 0 <= k < toks.len() - 1 ==> emitted_somewhere(s, #[trigger] toks[k]),
    decreases s.len() - i,
{
    if i >= s.len() {
    } else {
        crate::lexer::lex::lemma_step_next(s, i);
        lemma_scan_output_shape(s, i, toks);
        match spec_step(s, i) {
            SpecStep::Fail => {},
            SpecStep::Skip { next } => {
                lemma_scan_tokens_from_steps(s, next, toks);
            },
            SpecStep::Emit { token, next } => {
                let rest = scan_from(s, next)->Ok_0;
                lemma_scan_tokens_from_steps(s, next, rest);
                lemma_scan_output_shape(s, next, rest);
                assert(toks == seq![token] + rest);
                assert forall|k: int| 0 <= k < toks.len() - 1 implies emitted_somewhere(
                    s,
                    #[trigger] toks[k],
                ) by {
                    if k == 0 {
                        assert((spec_step(s, i) matches SpecStep::Emit { token: t, next: nx } && t
                            == toks[0]));
                    } else {
                        assert(toks[k] == rest[k - 1]);
                    }
                }
            },
        }
    }
}

/// The round-trip guarantee over a whole pass: any punctuation, operator,
/// keyword or identifier token of a successful scan re-scans, from its lexeme
/// alone, to a token of the same kind followed only by the end-of-file token.
pub proof fn lemma_output_token_round_trip(s: Seq<char>, toks: Seq<SpecToken>, k: int)
    requires
        spec_tokenize(s) == Ok::<Seq<SpecToken>, int>(toks),
        0 <= k < toks.len(),
        toks[k].kind != TokenKind::Number,
        toks[k].kind != TokenKind::String,
        toks[k].kind != TokenKind::EOF,
    ensures
        spec_tokenize(toks[k].lexeme) matches Ok(ts) && ts.len() == 2 && ts[0].kind == toks[k].kind
            && ts[1].kind == TokenKind::EOF,
{
    lemma_tokenize_output_shape(s, toks);
    lemma_scan_tokens_from_steps(s, 0, toks);
    assert(emitted_somewhere(s, toks[k]));
    let j = choose|j: int|
        0 <= j < s.len() && ((#[trigger] spec_step(s, j)) matches SpecStep::Emit { token, next }
            && token == toks[k]);
    lemma_round_trip(s, j);
}

/// The escaping that renders a decoded string back into source form, for the
/// supported named escape set; every other character stands for itself.
pub open spec fn encode_escapes(s: Seq<char>) -> Seq<char>
    decreases s.len(),
{
    if s.len() == 0 {
        Seq::empty()
    } else {
        let c = s[0];
        let enc = if c == '\n' {
            seq!['\\', 'n']
        } else if c == '\t' {
            seq!['\\', 't']
        } else if c == '\\' {
            seq!['\\', '\\']
        } else if c == '\r' {
            seq!['\\', 'r']
        } else if c == '"' {
            seq!['\\', '"']
        } else if c == '\0' {
            seq!['\\', '0']
        } else {
            seq![c]
        };
        enc + encode_escapes(s.skip(1))
    }
}

/// Escape decoding inverts escape encoding: re-encoding a decoded string and
/// decoding it again is stable for the supported escape set.
pub proof fn lemma_escape_round_trip(s: Seq<char>)
    ensures
        decode_escapes(encode_escapes(s)) == s,
    decreases s.len(),
{
    if s.len() == 0 {
    } else {
        let c = s[0];
        let rest = encode_escapes(s.skip(1));
        lemma_escape_round_trip(s.skip(1));
        if c == '\n' || c == '\t' || c == '\\' || c == '\r' || c == '"' || c == '\0' {
            let enc = encode_escapes(s);
            assert(enc.skip(2) =~= rest);
            assert(decode_escapes(enc) =~= seq![c] + s.skip(1));
        } else {
            let enc = encode_escapes(s);
            assert(enc.skip(1) =~= rest);
            assert(decode_escapes(enc) =~= seq![c] + s.skip(1));
        }
        assert(seq![c] + s.skip(1) =~= s);
    }
}

/// A string-literal interior with no backslash decodes to itself unchanged.
pub proof fn lemma_decode_no_backslash(s: Seq<char>)
    requires
        forall|k: int| 0 <= k < s.len() ==> s[k] != '\\',
    ensures
        decode_escapes(s) == s,
    decreases s.len(),
{
    if s.len() > 0 {
        lemma_decode_no_backslash(s.skip(1));
        assert(seq![s[0]] + s.skip(1) =~= s);
    }
}

} // verus!

