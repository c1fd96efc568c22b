//! Splitting source text into tokens.
//!
//! At each position the longest lexeme is taken: a run of whitespace (which
//! is skipped), an identifier or keyword, a number, or an operator of two
//! characters before one of one. A character that starts no lexeme is an
//! error. Spans are byte offsets into the UTF-8 text.
use vstd::prelude::*;
use std::ops::Range;
use vstd::utf8::{encode_utf8, encode_scalar, char_is_scalar};
use crate::pretty::str_chars;
use crate::text::push_char;
use crate::token::{token_text, SToken, Token};

verus! {

/// An error found while lexing: where, and what.
#[derive(Debug)]
pub struct LexError {
    pub span: Range<usize>,
    pub message: Option<String>,
}

/// Whitespace that separates tokens.
pub open spec fn is_ws(c: char) -> bool {
    c == ' ' || c == '\t' || c == '\r' || c == '\n'
}

/// A character that can start an identifier.
pub open spec fn is_alpha(c: char) -> bool {
    ('a' <= c && c <= 'z') || ('A' <= c && c <= 'Z') || c == '_'
}

/// A decimal digit.
pub open spec fn is_digit(c: char) -> bool {
    '0' <= c && c <= '9'
}

/// A character that can continue an identifier.
pub open spec fn is_ident_char(c: char) -> bool {
    is_alpha(c) || is_digit(c)
}

/// The end of the run of whitespace from `i`.
pub open spec fn ws_end(cs: Seq<char>, i: nat) -> nat
    decreases cs.len() - i,
{
    if i < cs.len() && is_ws(cs[i as int]) { ws_end(cs, i + 1) } else { i }
}

/// The end of the run of identifier characters from `i`.
pub open spec fn ident_end(cs: Seq<char>, i: nat) -> nat
    decreases cs.len() - i,
{
    if i < cs.len() && is_ident_char(cs[i as int]) { ident_end(cs, i + 1) } else { i }
}

/// The end of the run of digits from `i`.
pub open spec fn digits_end(cs: Seq<char>, i: nat) -> nat
    decreases cs.len() - i,
{
    if i < cs.len() && is_digit(cs[i as int]) { digits_end(cs, i + 1) } else { i }
}

/// The value of a numeral.
pub open spec fn digits_value(s: Seq<char>) -> nat
    decreases s.len(),
{
    if s.len() == 0 {
        0
    } else {
        digits_value(s.drop_last()) * 10 + ((s.last() as int - 48) as nat)
    }
}

/// The keyword a word spells, or the word as an identifier.
pub open spec fn keyword(s: Seq<char>) -> SToken {
    if s == "if"@ {
        SToken::If
    } else if s == "then"@ {
        SToken::Then
    } else if s == "else"@ {
        SToken::Else
    } else if s == "rec"@ {
        SToken::Rec
    } else if s == "let"@ {
        SToken::Let
    } else if s == "in"@ {
        SToken::In
    } else if s == "true"@ {
        SToken::True
    } else if s == "false"@ {
        SToken::False
    } else if s == "match"@ {
        SToken::Match
    } else if s == "and"@ {
        SToken::And
    } else if s == "type"@ {
        SToken::Type
    } else {
        SToken::Ident(s)
    }
}

/// The operator that two characters spell, if any.
pub open spec fn pair_token(c: char, d: char) -> Option<SToken> {
    if c == '=' && d == '=' {
        Some(SToken::EqEq)
    } else if c == '!' && d == '=' {
        Some(SToken::BangEq)
    } else if c == '<' && d == '=' {
        Some(SToken::LtEq)
    } else if c == '>' && d == '=' {
        Some(SToken::GtEq)
    } else if c == '&' && d == '&' {
        Some(SToken::AndAnd)
    } else if c == '|' && d == '|' {
        Some(SToken::PipePipe)
    } else if c == '=' && d == '>' {
        Some(SToken::StrongArrow)
    } else {
        None
    }
}

/// The operator or punctuation that one character spells, if any.
pub open spec fn single_token(c: char) -> Option<SToken> {
    if c == '<' {
        Some(SToken::Lt)
    } else if c == '>' {
        Some(SToken::Gt)
    } else if c == '!' {
        Some(SToken::Bang)
    } else if c == '+' {
        Some(SToken::Plus)
    } else if c == '-' {
        Some(SToken::Minus)
    } else if c == '*' {
        Some(SToken::Star)
    } else if c == '/' {
        Some(SToken::Slash)
    } else if c == '^' {
        Some(SToken::Caret)
    } else if c == '|' {
        Some(SToken::Pipe)
    } else if c == '=' {
        Some(SToken::Eq)
    } else if c == '(' {
        Some(SToken::LParen)
    } else if c == ')' {
        Some(SToken::RParen)
    } else if c == ',' {
        Some(SToken::Comma)
    } else {
        None
    }
}

/// What starts at a position: whitespace to skip, a token, or a character
/// that starts nothing.
pub enum Lexeme {
    Skip,
    Tok(SToken),
    Bad,
}

/// A run of digits without its leading zeros, keeping at least one digit.
pub open spec fn strip_leading_zeros(s: Seq<char>) -> Seq<char>
    decreases s.len(),
{
    if s.len() > 1 && s[0] == '0' { strip_leading_zeros(s.drop_first()) } else { s }
}

/// A run of digits without its trailing zeros.
pub open spec fn strip_trailing_zeros(s: Seq<char>) -> Seq<char>
    decreases s.len(),
{
    if s.len() > 0 && s.last() == '0' { strip_trailing_zeros(s.drop_last()) } else { s }
}

/// How a float literal with integer digits `ip` and fraction digits `fp` is
/// written as a number: no leading zeros before the point, no trailing zeros
/// after it, and no point when no fraction digit is left (`1.50` is `1.5`,
/// `007.0` is `7`).
pub open spec fn float_text(ip: Seq<char>, fp: Seq<char>) -> Seq<char> {
    let f = strip_trailing_zeros(fp);
    if f.len() == 0 { strip_leading_zeros(ip) } else { strip_leading_zeros(ip) + "."@ + f }
}

/// The longest lexeme that starts at `i` (within the text), and where it ends.
pub open spec fn scan(cs: Seq<char>, i: nat) -> (Lexeme, nat) {
    let c = cs[i as int];
    if is_ws(c) {
        (Lexeme::Skip, ws_end(cs, i))
    } else if is_alpha(c) {
        let j = ident_end(cs, i);
        (Lexeme::Tok(keyword(cs.subrange(i as int, j as int))), j)
    } else if is_digit(c) {
        let j = digits_end(cs, i);
        if j + 1 < cs.len() && cs[j as int] == '.' && is_digit(cs[j + 1 as int]) {
            let k = digits_end(cs, j + 1);
            (Lexeme::Tok(SToken::Float(float_text(cs.subrange(i as int, j as int), cs.subrange((j + 1) as int, k as int)))), k)
        } else {
            (Lexeme::Tok(SToken::Int(digits_value(cs.subrange(i as int, j as int)) as int)), j)
        }
    } else if i + 1 < cs.len() && pair_token(c, cs[i + 1 as int]) is Some {
        (Lexeme::Tok(pair_token(c, cs[i + 1 as int])->0), i + 2)
    } else if single_token(c) is Some {
        (Lexeme::Tok(single_token(c)->0), i + 1)
    } else {
        (Lexeme::Bad, i + 1)
    }
}

proof fn lemma_runs_advance(cs: Seq<char>, i: nat)
    ensures
        ws_end(cs, i) >= i,
        ident_end(cs, i) >= i,
        digits_end(cs, i) >= i,
        ws_end(cs, i) <= cs.len() || ws_end(cs, i) == i,
        ident_end(cs, i) <= cs.len() || ident_end(cs, i) == i,
        digits_end(cs, i) <= cs.len() || digits_end(cs, i) == i,
    decreases cs.len() - i,
{
    if i < cs.len() {
        lemma_runs_advance(cs, i + 1);
    }
}

/// A lexeme ends after it starts, and within the text.
pub proof fn lemma_scan_advances(cs: Seq<char>, i: nat)
    requires
        i < cs.len(),
    ensures
        i < scan(cs, i).1 <= cs.len(),
{
    lemma_runs_advance(cs, i);
    lemma_runs_advance(cs, i + 1);
    let j = digits_end(cs, i);
    if j + 1 < cs.len() {
        lemma_runs_advance(cs, j + 1);
    }
}

/// The byte offset of position `i`: the length of the UTF-8 encoding of the
/// characters before it.
pub open spec fn byte_at(cs: Seq<char>, i: nat) -> nat {
    encode_utf8(cs.take(i as int)).len()
}

/// The message of a character that starts no lexeme.
pub open spec fn unexpected_text(c: char) -> Seq<char> {
    "unexpected character `"@ + seq![c] + "`"@
}

/// The tokens from position `i` on, each with its byte span, and the errors,
/// each with its byte span and message.
pub open spec fn lex_spec(cs: Seq<char>, i: nat) -> (Seq<(SToken, nat, nat)>, Seq<(nat, nat, Seq<char>)>)
    decreases cs.len() - i,
{
    if i >= cs.len() {
        (Seq::empty(), Seq::empty())
    } else {
        proof {
            lemma_scan_advances(cs, i);
        }
        let (lx, j) = scan(cs, i);
        let (ts, es) = lex_spec(cs, j);
        match lx {
            Lexeme::Skip => (ts, es),
            Lexeme::Tok(t) => (seq![(t, byte_at(cs, i), byte_at(cs, j))] + ts, es),
            Lexeme::Bad => (ts, seq![(byte_at(cs, i), byte_at(cs, j), unexpected_text(cs[i as int]))] + es),
        }
    }
}

/// Whether every integer literal among tokens has a value that an `i64` holds.
pub open spec fn ints_fit(ts: Seq<(SToken, nat, nat)>) -> bool {
    forall|k: int| 0 <= k < ts.len() ==> ((#[trigger] ts[k]).0 matches SToken::Int(n) ==> n <= i64::MAX)
}

/// The tokens with their spans.
pub open spec fn tokens_view(ts: Seq<(Token, Range<usize>)>) -> Seq<(SToken, nat, nat)> {
    Seq::new(ts.len(), |k: int| (ts[k].0@, ts[k].1.start as nat, ts[k].1.end as nat))
}

/// The errors with their spans and messages.
pub open spec fn lex_errors_view(es: Seq<LexError>) -> Seq<(nat, nat, Seq<char>)> {
    Seq::new(es.len(), |k: int| (es[k].span.start as nat, es[k].span.end as nat,
        match es[k].message { Some(m) => m@, None => Seq::empty() }))
}

/// Encoding a concatenation encodes each part.
proof fn lemma_encode_concat(a: Seq<char>, b: Seq<char>)
    ensures
        encode_utf8(a + b) == encode_utf8(a) + encode_utf8(b),
    decreases a.len(),
{
    if a.len() == 0 {
        assert(a + b =~= b);
        assert(encode_utf8(a) =~= Seq::<u8>::empty());
        assert(encode_utf8(a) + encode_utf8(b) =~= encode_utf8(b));
    } else {
        assert((a + b).drop_first() =~= a.drop_first() + b);
        lemma_encode_concat(a.drop_first(), b);
        assert(encode_utf8(a + b) =~= encode_utf8(a) + encode_utf8(b));
    }
}

/// The byte offset grows by the width of each character.
proof fn lemma_byte_at_next(cs: Seq<char>, i: nat)
    requires
        i < cs.len(),
    ensures
        byte_at(cs, i + 1) == byte_at(cs, i) + encode_scalar(cs[i as int] as u32).len(),
        byte_at(cs, i + 1) <= byte_at(cs, cs.len()),
{
    assert(cs.take(i + 1 as int) =~= cs.take(i as int) + seq![cs[i as int]]);
    lemma_encode_concat(cs.take(i as int), seq![cs[i as int]]);
    let one = seq![cs[i as int]];
    assert(one.drop_first() =~= Seq::<char>::empty());
    assert(encode_utf8(one) =~= encode_scalar(cs[i as int] as u32) + encode_utf8(Seq::<char>::empty()));
    assert(cs.take(cs.len() as int) =~= cs.take(i + 1 as int) + cs.skip(i + 1 as int));
    lemma_encode_concat(cs.take(i + 1 as int), cs.skip(i + 1 as int));
}

/// The number of bytes of the UTF-8 encoding of a character.
fn char_width(c: char) -> (w: usize)
    ensures
        w == encode_scalar(c as u32).len(),
        1 <= w <= 4,
{
    broadcast use char_is_scalar;
    let v = c as u32;
    if v <= 0x7F {
        1
    } else if v <= 0x7FF {
        2
    } else if v <= 0xFFFF {
        3
    } else {
        4
    }
}

fn is_ws_exec(c: char) -> (b: bool)
    ensures
        b == is_ws(c),
{
    c == ' ' || c == '\t' || c == '\r' || c == '\n'
}

fn is_alpha_exec(c: char) -> (b: bool)
    ensures
        b == is_alpha(c),
{
    ('a' <= c && c <= 'z') || ('A' <= c && c <= 'Z') || c == '_'
}

fn is_digit_exec(c: char) -> (b: bool)
    ensures
        b == is_digit(c),
{
    '0' <= c && c <= '9'
}

/// Whether the characters `cs[i..j]` spell `lit`.
fn spells(cs: &Vec<char>, i: usize, j: usize, lit: &str) -> (b: bool)
    requires
        i <= j <= cs.len(),
    ensures
        b == (cs@.subrange(i as int, j as int) == lit@),
{
    let l = str_chars(lit);
    if j - i != l.len() {
        return false;
    }
    let mut k: usize = 0;
    while k < l.len()
        invariant
            k <= l.len(),
            l@ == lit@,
            j - i == l.len(),
            i <= j <= cs.len(),
            forall|x: int| 0 <= x < k ==> cs@[i + x] == l@[x],
        decreases l.len() - k,
    {
        if cs[i + k] != l[k] {
            assert(cs@.subrange(i as int, j as int)[k as int] != lit@[k as int]);
            return false;
        }
        k = k + 1;
    }
    assert(cs@.subrange(i as int, j as int) =~= lit@);
    true
}

/// The keyword or identifier that `cs[i..j]` spells.
fn keyword_exec(cs: &Vec<char>, i: usize, j: usize) -> (t: Token)
    requires
        i <= j <= cs.len(),
    ensures
        t@ == keyword(cs@.subrange(i as int, j as int)),
{
    if spells(cs, i, j, "if") {
        Token::If
    } else if spells(cs, i, j, "then") {
        Token::Then
    } else if spells(cs, i, j, "else") {
        Token::Else
    } else if spells(cs, i, j, "rec") {
        Token::Rec
    } else if spells(cs, i, j, "let") {
        Token::Let
    } else if spells(cs, i, j, "in") {
        Token::In
    } else if spells(cs, i, j, "true") {
        Token::True
    } else if spells(cs, i, j, "false") {
        Token::False
    } else if spells(cs, i, j, "match") {
        Token::Match
    } else if spells(cs, i, j, "and") {
        Token::And
    } else if spells(cs, i, j, "type") {
        Token::Type
    } else {
        Token::Ident(text_of(cs, i, j))
    }
}

/// The text of `cs[i..j]`.
fn text_of(cs: &Vec<char>, i: usize, j: usize) -> (s: String)
    requires
        i <= j <= cs.len(),
    ensures
        s@ == cs@.subrange(i as int, j as int),
{
    let mut s = String::new();
    let mut k = i;
    while k < j
        invariant
            i <= k <= j <= cs.len(),
            s@ == cs@.subrange(i as int, k as int),
        decreases j - k,
    {
        push_char(&mut s, cs[k]);
        k = k + 1;
        assert(s@ =~= cs@.subrange(i as int, k as int));
    }
    s
}

/// A numeral's value is at least that of each of its prefixes.
proof fn lemma_digits_value_prefix(s: Seq<char>, k: nat)
    requires
        k <= s.len(),
        forall|x: int| 0 <= x < s.len() ==> is_digit(#[trigger] s[x]),
    ensures
        digits_value(s.take(k as int)) <= digits_value(s),
    decreases s.len(),
{
    if k < s.len() {
        assert(s.drop_last().take(k as int) =~= s.take(k as int));
        lemma_digits_value_prefix(s.drop_last(), k);
    } else {
        assert(s.take(k as int) =~= s);
    }
}

/// The value of the numeral `cs[i..j]`, if an `i64` holds it.
fn numeral_value(cs: &Vec<char>, i: usize, j: usize) -> (n: Option<i64>)
    requires
        i <= j <= cs.len(),
        forall|x: int| i <= x < j ==> is_digit(#[trigger] cs@[x]),
    ensures
        match n {
            Some(v) => v == digits_value(cs@.subrange(i as int, j as int)),
            None => digits_value(cs@.subrange(i as int, j as int)) > i64::MAX,
        },
{
    let ghost whole = cs@.subrange(i as int, j as int);
    proof {
        assert forall|x: int| 0 <= x < whole.len() implies is_digit(#[trigger] whole[x]) by {
            assert(whole[x] == cs@[i + x]);
        }
    }
    let mut n: i64 = 0;
    let mut k = i;
    while k < j
        invariant
            i <= k <= j <= cs.len(),
            whole == cs@.subrange(i as int, j as int),
            forall|x: int| i <= x < j ==> is_digit(#[trigger] cs@[x]),
            forall|x: int| 0 <= x < whole.len() ==> is_digit(#[trigger] whole[x]),
            n == digits_value(cs@.subrange(i as int, k as int)),
        decreases j - k,
    {
        proof {
            assert(cs@.subrange(i as int, k + 1) =~= whole.take(k + 1 - i));
            lemma_digits_value_prefix(whole, (k + 1 - i) as nat);
            let t = cs@.subrange(i as int, k + 1);
            assert(t.drop_last() =~= cs@.subrange(i as int, k as int));
            assert(t.last() == cs@[k as int]);
        }
        let d = (cs[k] as u32 - 48) as i64;
        if n > (i64::MAX - d) / 10 {
            return None;
        }
        n = n * 10 + d;
        k = k + 1;
    }
    Some(n)
}

/// What the exec scanner found at a position.
enum Found {
    Skip,
    Tok(Token),
    Bad,
    TooBig,
}

spec fn found_view(f: Found) -> Lexeme {
    match f {
        Found::Skip => Lexeme::Skip,
        Found::Tok(t) => Lexeme::Tok(t@),
        Found::Bad => Lexeme::Bad,
        Found::TooBig => Lexeme::Bad,
    }
}

fn run_end(cs: &Vec<char>, i: usize, which: u8) -> (j: usize)
    requires
        i <= cs.len(),
    ensures
        which == 0 ==> j == ws_end(cs@, i as nat),
        which == 1 ==> j == ident_end(cs@, i as nat),
        which != 0 && which != 1 ==> j == digits_end(cs@, i as nat),
        i <= j <= cs.len(),
    decreases cs.len() - i,
{
    if i < cs.len() {
        let c = cs[i];
        let more = if which == 0 {
            is_ws_exec(c)
        } else if which == 1 {
            is_alpha_exec(c) || is_digit_exec(c)
        } else {
            is_digit_exec(c)
        };
        if more {
            return run_end(cs, i + 1, which);
        }
    }
    i
}

fn pair_exec(c: char, d: char) -> (t: Option<Token>)
    ensures
        match t {
            Some(x) => pair_token(c, d) == Some(x@),
            None => pair_token(c, d) is None,
        },
{
    if c == '=' && d == '=' {
        Some(Token::EqEq)
    } else if c == '!' && d == '=' {
        Some(Token::BangEq)
    } else if c == '<' && d == '=' {
        Some(Token::LtEq)
    } else if c == '>' && d == '=' {
        Some(Token::GtEq)
    } else if c == '&' && d == '&' {
        Some(Token::AndAnd)
    } else if c == '|' && d == '|' {
        Some(Token::PipePipe)
    } else if c == '=' && d == '>' {
        Some(Token::StrongArrow)
    } else {
        None
    }
}

fn single_exec(c: char) -> (t: Option<Token>)
    ensures
        match t {
            Some(x) => single_token(c) == Some(x@),
            None => single_token(c) is None,
        },
{
    if c == '<' {
        Some(Token::Lt)
    } else if c == '>' {
        Some(Token::Gt)
    } else if c == '!' {
        Some(Token::Bang)
    } else if c == '+' {
        Some(Token::Plus)
    } else if c == '-' {
        Some(Token::Minus)
    } else if c == '*' {
        Some(Token::Star)
    } else if c == '/' {
        Some(Token::Slash)
    } else if c == '^' {
        Some(Token::Caret)
    } else if c == '|' {
        Some(Token::Pipe)
    } else if c == '=' {
        Some(Token::Eq)
    } else if c == '(' {
        Some(Token::LParen)
    } else if c == ')' {
        Some(Token::RParen)
    } else if c == ',' {
        Some(Token::Comma)
    } else {
        None
    }
}

proof fn lemma_digit_run(cs: Seq<char>, i: nat, x: int)
    requires
        i <= x < digits_end(cs, i),
    ensures
        x < cs.len(),
        is_digit(cs[x]),
    decreases cs.len() - i,
{
    if x > i {
        lemma_digit_run(cs, i + 1, x);
    }
}

/// The float literal with integer digits `cs[i..j]` and fraction digits
/// `cs[j + 1..k]`, written as a number (see `float_text`).
fn float_text_of(cs: &Vec<char>, i: usize, j: usize, k: usize) -> (s: String)
    requires
        i < j < k <= cs.len(),
    ensures
        s@ == float_text(cs@.subrange(i as int, j as int), cs@.subrange(j + 1, k as int)),
{
    let mut a = i;
    while a + 1 < j && cs[a] == '0'
        invariant
            i <= a < j <= cs.len(),
            strip_leading_zeros(cs@.subrange(a as int, j as int)) == strip_leading_zeros(cs@.subrange(i as int, j as int)),
        decreases j - a,
    {
        assert(cs@.subrange(a as int, j as int).drop_first() =~= cs@.subrange(a + 1, j as int));
        a = a + 1;
    }
    let mut b = k;
    while b > j + 1 && cs[b - 1] == '0'
        invariant
            j + 1 <= b <= k <= cs.len(),
            strip_trailing_zeros(cs@.subrange(j + 1, b as int)) == strip_trailing_zeros(cs@.subrange(j + 1, k as int)),
        decreases b,
    {
        assert(cs@.subrange(j + 1, b as int).drop_last() =~= cs@.subrange(j + 1, b - 1));
        b = b - 1;
    }
    let mut s = text_of(cs, a, j);
    if b > j + 1 {
        s.append(".");
        let f = text_of(cs, j + 1, b);
        s.append(f.as_str());
    }
    proof {
        reveal_strlit(".");
    }
    s
}

/// The lexeme at position `i` (see `scan`).
fn scan_at(cs: &Vec<char>, i: usize) -> (r: (Found, usize))
    requires
        i < cs.len(),
    ensures
        r.0 is TooBig <==> (scan(cs@, i as nat).0 matches Lexeme::Tok(SToken::Int(n)) && n > i64::MAX),
        !(r.0 is TooBig) ==> found_view(r.0) == scan(cs@, i as nat).0,
        r.1 == scan(cs@, i as nat).1,
{
    let c = cs[i];
    if is_ws_exec(c) {
        (Found::Skip, run_end(cs, i, 0))
    } else if is_alpha_exec(c) {
        let j = run_end(cs, i, 1);
        (Found::Tok(keyword_exec(cs, i, j)), j)
    } else if is_digit_exec(c) {
        let j = run_end(cs, i, 2);
        if j < cs.len() && cs.len() - j > 1 && cs[j] == '.' && is_digit_exec(cs[j + 1]) {
            let k = run_end(cs, j + 1, 2);
            (Found::Tok(Token::Float(float_text_of(cs, i, j, k))), k)
        } else {
            proof {
                assert forall|x: int| i <= x < j implies is_digit(#[trigger] cs@[x]) by {
                    lemma_digit_run(cs@, i as nat, x);
                }
            }
            match numeral_value(cs, i, j) {
                Some(n) => (Found::Tok(Token::Int(n)), j),
                None => (Found::TooBig, j),
            }
        }
    } else {
        let pair = if i + 1 < cs.len() { pair_exec(c, cs[i + 1]) } else { None };
        match pair {
            Some(t) => (Found::Tok(t), i + 2),
            None => match single_exec(c) {
                Some(t) => (Found::Tok(t), i + 1),
                None => (Found::Bad, i + 1),
            },
        }
    }
}

/// Whether every integer literal of the text has a value that an `i64` holds.
pub fn int_literals_fit(src: &str) -> (b: bool)
    ensures
        b == ints_fit(lex_spec(src@, 0).0),
{
    let cs = str_chars(src);
    let mut i: usize = 0;
    while i < cs.len()
        invariant
            cs@ == src@,
            i <= cs.len(),
            ints_fit(lex_spec(cs@, 0).0) == ints_fit(lex_spec(cs@, i as nat).0),
        decreases cs.len() - i,
    {
        proof {
            lemma_scan_advances(cs@, i as nat);
        }
        let (found, j) = scan_at(&cs, i);
        proof {
            let (lx, jj) = scan(cs@, i as nat);
            let rest = lex_spec(cs@, j as nat).0;
            let here = lex_spec(cs@, i as nat).0;
            match lx {
                Lexeme::Tok(t) => {
                    assert(here == seq![(t, byte_at(cs@, i as nat), byte_at(cs@, j as nat))] + rest);
                    assert(ints_fit(here) ==> ints_fit(rest)) by {
                        if ints_fit(here) {
                            assert forall|k: int| 0 <= k < rest.len() implies ((#[trigger] rest[k]).0 matches SToken::Int(n) ==> n <= i64::MAX) by {
                                assert(rest[k] == here[k + 1]);
                            }
                        }
                    }
                    if !(found is TooBig) {
                        assert(ints_fit(rest) ==> ints_fit(here)) by {
                            if ints_fit(rest) {
                                assert forall|k: int| 0 <= k < here.len() implies ((#[trigger] here[k]).0 matches SToken::Int(n) ==> n <= i64::MAX) by {
                                    if k > 0 {
                                        assert(here[k] == rest[k - 1]);
                                    }
                                }
                            }
                        }
                    } else {
                        assert(!ints_fit(here)) by {
                            assert(here[0].0 == t);
                        }
                    }
                },
                _ => {},
            }
        }
        if let Found::TooBig = found {
            return false;
        }
        i = j;
    }
    true
}

/// Splits source text into tokens with their byte spans, and reports each
/// character that starts no token (see `lex_spec`).
pub fn tokenize(src: &str) -> (r: (Vec<(Token, Range<usize>)>, Vec<LexError>))
    requires
        ints_fit(lex_spec(src@, 0).0),
    ensures
        tokens_view(r.0@) == lex_spec(src@, 0).0,
        lex_errors_view(r.1@) == lex_spec(src@, 0).1,
{
    let cs = str_chars(src);
    let bytes = src.as_bytes();
    let total = bytes.len();
    assert(cs@.take(cs@.len() as int) =~= cs@);
    assert(cs@.take(0) =~= Seq::<char>::empty());
    let mut tokens: Vec<(Token, Range<usize>)> = Vec::new();
    let mut errors: Vec<LexError> = Vec::new();
    let mut i: usize = 0;
    let mut b: usize = 0;
    while i < cs.len()
        invariant
            cs@ == src@,
            i <= cs.len(),
            total == byte_at(cs@, cs@.len()),
            b == byte_at(cs@, i as nat),
            ints_fit(lex_spec(cs@, 0).0),
            tokens_view(tokens@) + lex_spec(cs@, i as nat).0 == lex_spec(cs@, 0).0,
            lex_errors_view(errors@) + lex_spec(cs@, i as nat).1 == lex_spec(cs@, 0).1,
        decreases cs.len() - i,
    {
        proof {
            lemma_scan_advances(cs@, i as nat);
            let (lx, j) = scan(cs@, i as nat);
            if lx matches Lexeme::Tok(SToken::Int(n)) {
                let k = tokens_view(tokens@).len() as int;
                assert(lex_spec(cs@, 0).0[k] == lex_spec(cs@, i as nat).0[0]);
            }
        }
        let (found, j) = scan_at(&cs, i);
        let mut bj = b;
        let mut k = i;
        while k < j
            invariant
                i <= k <= j <= cs.len(),
                total == byte_at(cs@, cs@.len()),
                bj == byte_at(cs@, k as nat),
            decreases j - k,
        {
            proof {
                lemma_byte_at_next(cs@, k as nat);
            }
            bj = bj + char_width(cs[k]);
            k = k + 1;
        }
        let ghost before_t = tokens@;
        let ghost before_e = errors@;
        match found {
            Found::Skip | Found::TooBig => {},
            Found::Tok(t) => {
                tokens.push((t, Range { start: b, end: bj }));
                assert(tokens_view(tokens@) =~= tokens_view(before_t).push((t@, b as nat, bj as nat)));
            },
            Found::Bad => {
                let mut msg = String::from_str("unexpected character `");
                push_char(&mut msg, cs[i]);
                msg.append("`");
                assert(msg@ =~= unexpected_text(cs@[i as int]));
                errors.push(LexError { span: Range { start: b, end: bj }, message: Some(msg) });
                assert(lex_errors_view(errors@) =~= lex_errors_view(before_e).push((b as nat, bj as nat, unexpected_text(cs@[i as int]))));
            },
        }
        proof {
            let (ts, es) = lex_spec(cs@, j as nat);
            assert(tokens_view(tokens@) + lex_spec(cs@, j as nat).0 =~= lex_spec(cs@, 0).0);
            assert(lex_errors_view(errors@) + lex_spec(cs@, j as nat).1 =~= lex_spec(cs@, 0).1);
        }
        i = j;
        b = bj;
    }
    assert(tokens_view(tokens@) =~= lex_spec(cs@, 0).0);
    assert(lex_errors_view(errors@) =~= lex_spec(cs@, 0).1);
    (tokens, errors)
}

} // verus!

verus! {

proof fn lemma_byte_at_grows(cs: Seq<char>, i: nat, j: nat)
    requires
        i < j <= cs.len(),
    ensures
        byte_at(cs, i) < byte_at(cs, j) <= byte_at(cs, cs.len()),
    decreases j - i,
{
    broadcast use char_is_scalar;
    lemma_byte_at_next(cs, i);
    assert(encode_scalar(cs[i as int] as u32).len() >= 1);
    if i + 1 < j {
        lemma_byte_at_grows(cs, i + 1, j);
    }
}

/// What holds of the tokens lexed from position `i` on: each starts at or
/// after position `i`'s byte, ends after it starts and within the text, and
/// each ends before the next starts.
pub open spec fn spans_in_order(ts: Seq<(SToken, nat, nat)>, from: nat, total: nat) -> bool {
    &&& forall|k: int| 0 <= k < ts.len() ==> from <= (#[trigger] ts[k]).1 < ts[k].2 <= total
    &&& forall|k: int| 0 <= k < ts.len() - 1 ==> (#[trigger] ts[k]).2 <= ts[k + 1].1
}

proof fn lemma_spans_from(cs: Seq<char>, i: nat)
    requires
        i <= cs.len(),
    ensures
        spans_in_order(lex_spec(cs, i).0, byte_at(cs, i), byte_at(cs, cs.len())),
    decreases cs.len() - i,
{
    if i < cs.len() {
        lemma_scan_advances(cs, i);
        let (lx, j) = scan(cs, i);
        lemma_spans_from(cs, j);
        lemma_byte_at_grows(cs, i, j);
        let rest = lex_spec(cs, j).0;
        match lx {
            Lexeme::Tok(t) => {
                let ts = seq![(t, byte_at(cs, i), byte_at(cs, j))] + rest;
                assert(lex_spec(cs, i).0 == ts);
                assert forall|k: int| 0 <= k < ts.len() implies byte_at(cs, i) <= (#[trigger] ts[k]).1 < ts[k].2 <= byte_at(cs, cs.len()) by {
                    if k > 0 {
                        assert(ts[k] == rest[k - 1]);
                    }
                }
                assert forall|k: int| 0 <= k < ts.len() - 1 implies (#[trigger] ts[k]).2 <= ts[k + 1].1 by {
                    if k > 0 {
                        assert(ts[k] == rest[k - 1]);
                        assert(ts[k + 1] == rest[k]);
                    } else {
                        assert(ts[1] == rest[0]);
                    }
                }
            },
            _ => {
                assert forall|k: int| 0 <= k < rest.len() implies byte_at(cs, i) <= (#[trigger] rest[k]).1 by {
                    assert(byte_at(cs, j) <= rest[k].1);
                }
            },
        }
    }
}

/// The tokens of a text come in the order of the text, without overlapping:
/// each ends after it starts and within the text's bytes, and before the
/// next one starts.
pub proof fn lemma_token_spans_ordered(cs: Seq<char>)
    ensures
        spans_in_order(lex_spec(cs, 0).0, 0, encode_utf8(cs).len()),
{
    lemma_spans_from(cs, 0);
    assert(cs.take(0) =~= Seq::<char>::empty());
    assert(cs.take(cs.len() as int) =~= cs);
    assert(encode_utf8(Seq::<char>::empty()) =~= Seq::<u8>::empty());
}


/// The tokens written with operator or punctuation characters.
pub open spec fn is_symbol_token(t: SToken) -> bool {
    ||| t is EqEq ||| t is BangEq ||| t is LtEq ||| t is GtEq ||| t is AndAnd ||| t is PipePipe
    ||| t is StrongArrow ||| t is Lt ||| t is Gt ||| t is Bang ||| t is Plus ||| t is Minus
    ||| t is Star ||| t is Slash ||| t is Caret ||| t is Pipe ||| t is Eq ||| t is LParen
    ||| t is RParen ||| t is Comma
}

/// In ASCII text each character takes one byte.
proof fn lemma_ascii_bytes(cs: Seq<char>, i: nat)
    requires
        i <= cs.len(),
        forall|k: int| 0 <= k < cs.len() ==> (cs[k] as u32) < 0x80,
    ensures
        byte_at(cs, i) == i,
    decreases i,
{
    if i == 0 {
        assert(cs.take(0) =~= Seq::<char>::empty());
    } else {
        lemma_ascii_bytes(cs, (i - 1) as nat);
        lemma_byte_at_next(cs, (i - 1) as nat);
    }
}

/// Lexing how an operator or punctuation token is written gives back that
/// token alone, spanning the whole text, and no error: `>=` is one `GtEq`,
/// not `>` then `=`.
pub proof fn lemma_symbol_round_trip(t: SToken)
    requires
        is_symbol_token(t),
    ensures
        lex_spec(token_text(t), 0) == (seq![(t, 0nat, token_text(t).len())], Seq::<(nat, nat, Seq<char>)>::empty()),
{
    reveal_strlit("==");
    reveal_strlit("!=");
    reveal_strlit("<=");
    reveal_strlit(">=");
    reveal_strlit("&&");
    reveal_strlit("||");
    reveal_strlit("=>");
    reveal_strlit("<");
    reveal_strlit(">");
    reveal_strlit("!");
    reveal_strlit("+");
    reveal_strlit("-");
    reveal_strlit("*");
    reveal_strlit("/");
    reveal_strlit("^");
    reveal_strlit("|");
    reveal_strlit("=");
    reveal_strlit("(");
    reveal_strlit(")");
    reveal_strlit(",");
    let cs = token_text(t);
    assert(1 <= cs.len() <= 2);
    assert(forall|k: int| 0 <= k < cs.len() ==> (cs[k] as u32) < 0x80);
    lemma_ascii_bytes(cs, 0);
    lemma_ascii_bytes(cs, cs.len());
    let n = cs.len();
    assert(scan(cs, 0) == (Lexeme::Tok(t), n));
    assert(lex_spec(cs, n) == (Seq::<(SToken, nat, nat)>::empty(), Seq::<(nat, nat, Seq<char>)>::empty()));
    assert(lex_spec(cs, 0).0 =~= seq![(t, 0nat, n)]);
}


/// The keyword tokens.
pub open spec fn is_keyword_token(t: SToken) -> bool {
    ||| t is If ||| t is Then ||| t is Else ||| t is Rec ||| t is Let ||| t is In
    ||| t is True ||| t is False ||| t is Match ||| t is And ||| t is Type
}

/// A run of identifier characters from `i` to the end ends at the end.
proof fn lemma_ident_run_to_end(cs: Seq<char>, i: nat)
    requires
        i <= cs.len(),
        forall|k: int| i <= k < cs.len() ==> is_ident_char(#[trigger] cs[k]),
    ensures
        ident_end(cs, i) == cs.len(),
    decreases cs.len() - i,
{
    if i < cs.len() {
        lemma_ident_run_to_end(cs, i + 1);
    }
}

/// Lexing how a keyword is written gives back that keyword alone, spanning
/// the whole text, and no error.
pub proof fn lemma_keyword_round_trip(t: SToken)
    requires
        is_keyword_token(t),
    ensures
        lex_spec(token_text(t), 0) == (seq![(t, 0nat, token_text(t).len())], Seq::<(nat, nat, Seq<char>)>::empty()),
{
    reveal_strlit("if");
    reveal_strlit("then");
    reveal_strlit("else");
    reveal_strlit("rec");
    reveal_strlit("let");
    reveal_strlit("in");
    reveal_strlit("true");
    reveal_strlit("false");
    reveal_strlit("match");
    reveal_strlit("and");
    reveal_strlit("type");
    let cs = token_text(t);
    let n = cs.len();
    assert(2 <= n <= 5);
    assert(forall|k: int| 0 <= k < n ==> is_alpha(#[trigger] cs[k]) && (cs[k] as u32) < 0x80);
    lemma_ident_run_to_end(cs, 0);
    lemma_ascii_bytes(cs, 0);
    lemma_ascii_bytes(cs, n);
    assert(cs.subrange(0, n as int) =~= cs);
    assert(keyword(cs) == t) by {
        if t is Else {
            assert(cs[0] != "then"@[0]);
        } else if t is Let {
            assert(cs[0] != "rec"@[0]);
        } else if t is In {
            assert(cs[1] != "if"@[1]);
        } else if t is True {
            assert(cs[1] != "then"@[1] && cs[0] != "else"@[0]);
        } else if t is Match {
            assert(cs[0] != "false"@[0]);
        } else if t is And {
            assert(cs[0] != "rec"@[0] && cs[0] != "let"@[0]);
        } else if t is Type {
            assert(cs[1] != "then"@[1] && cs[0] != "else"@[0] && cs[1] != "true"@[1]);
        }
    }
    assert(scan(cs, 0) == (Lexeme::Tok(t), n));
    assert(lex_spec(cs, n) == (Seq::<(SToken, nat, nat)>::empty(), Seq::<(nat, nat, Seq<char>)>::empty()));
    assert(lex_spec(cs, 0).0 =~= seq![(t, 0nat, n)]);
}

} // verus!
