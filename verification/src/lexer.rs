//! The tokenizer: source text to an ordered sequence of tokens.
//!
//! `spec_lex` is the mathematical model of tokenization: a single
//! left-to-right pass in which an alphanumeric run becomes a keyword, a
//! number or an identifier, and any other character is probed greedily
//! against the operator table, two-character spellings before one-character
//! prefixes. A character that starts no lexeme is a lexical error carrying
//! its position. The executable `lex` returns exactly what `spec_lex` says,
//! for every input.

use vstd::prelude::*;
use vstd::string::StrSliceExecFns;
use vstd::string::StringExecFns;

use crate::error::CompileError;

verus! {

/// Keywords of the source language.
#[derive(Debug, PartialEq, Eq, Clone, Copy, Structural)]
pub enum Keyword {
    If,
    Else,
    For,
    Fnc,
    Ret,
}

/// A lexical token. Identifiers carry their text; `Name(None)` is the
/// "any identifier" placeholder used in grammar rule patterns, never
/// produced by the tokenizer itself.
#[derive(Debug, PartialEq, Eq)]
pub enum Token {
    Number(i64),
    Assign,
    Declaration,
    Name(Option<String>),
    At,
    Lattice,
    Plus,
    Minus,
    Star,
    Slash,
    Percent,
    Backslash,
    Ampersand,
    Caret,
    Vline,
    Epoint,
    LogAnd,
    LogOr,
    Equ,
    Nequ,
    OpenParen,
    CloseParen,
    OpenBracket,
    CloseBracket,
    OpenCurly,
    CloseCurly,
    OpenArrow,
    CloseArrow,
    LeftArrow,
    RightArrow,
    Keywords(Keyword),
    Inc,
    Dec,
    Dot,
    Comma,
    End,
}

/// The mathematical model of a token: identifier text as a sequence of
/// characters instead of a `String`.
pub enum SpecToken {
    Number(i64),
    Assign,
    Declaration,
    Name(Option<Seq<char>>),
    At,
    Lattice,
    Plus,
    Minus,
    Star,
    Slash,
    Percent,
    Backslash,
    Ampersand,
    Caret,
    Vline,
    Epoint,
    LogAnd,
    LogOr,
    Equ,
    Nequ,
    OpenParen,
    CloseParen,
    OpenBracket,
    CloseBracket,
    OpenCurly,
    CloseCurly,
    OpenArrow,
    CloseArrow,
    LeftArrow,
    RightArrow,
    Keywords(Keyword),
    Inc,
    Dec,
    Dot,
    Comma,
    End,
}

impl View for Token {
    type V = SpecToken;

    open spec fn view(&self) -> SpecToken {
        match self {
            Token::Number(n) => SpecToken::Number(*n),
            Token::Assign => SpecToken::Assign,
            Token::Declaration => SpecToken::Declaration,
            Token::Name(o) => SpecToken::Name(
                match o {
                    Some(s) => Some(s.view()),
                    None => None,
                },
            ),
            Token::At => SpecToken::At,
            Token::Lattice => SpecToken::Lattice,
            Token::Plus => SpecToken::Plus,
            Token::Minus => SpecToken::Minus,
            Token::Star => SpecToken::Star,
            Token::Slash => SpecToken::Slash,
            Token::Percent => SpecToken::Percent,
            Token::Backslash => SpecToken::Backslash,
            Token::Ampersand => SpecToken::Ampersand,
            Token::Caret => SpecToken::Caret,
            Token::Vline => SpecToken::Vline,
            Token::Epoint => SpecToken::Epoint,
            Token::LogAnd => SpecToken::LogAnd,
            Token::LogOr => SpecToken::LogOr,
            Token::Equ => SpecToken::Equ,
            Token::Nequ => SpecToken::Nequ,
            Token::OpenParen => SpecToken::OpenParen,
            Token::CloseParen => SpecToken::CloseParen,
            Token::OpenBracket => SpecToken::OpenBracket,
            Token::CloseBracket => SpecToken::CloseBracket,
            Token::OpenCurly => SpecToken::OpenCurly,
            Token::CloseCurly => SpecToken::CloseCurly,
            Token::OpenArrow => SpecToken::OpenArrow,
            Token::CloseArrow => SpecToken::CloseArrow,
            Token::LeftArrow => SpecToken::LeftArrow,
            Token::RightArrow => SpecToken::RightArrow,
            Token::Keywords(k) => SpecToken::Keywords(*k),
            Token::Inc => SpecToken::Inc,
            Token::Dec => SpecToken::Dec,
            Token::Dot => SpecToken::Dot,
            Token::Comma => SpecToken::Comma,
            Token::End => SpecToken::End,
        }
    }
}

impl DeepView for Token {
    type V = SpecToken;

    open spec fn deep_view(&self) -> SpecToken {
        self.view()
    }
}

impl Clone for Token {
    /// A clone is the same token, identifier text included.
    fn clone(&self) -> (r: Self)
        ensures
            r == *self,
    {
        match self {
            Token::Number(n) => Token::Number(*n),
            Token::Assign => Token::Assign,
            Token::Declaration => Token::Declaration,
            Token::Name(o) => Token::Name(
                match o {
                    Some(s) => Some(s.clone()),
                    None => None,
                },
            ),
            Token::At => Token::At,
            Token::Lattice => Token::Lattice,
            Token::Plus => Token::Plus,
            Token::Minus => Token::Minus,
            Token::Star => Token::Star,
            Token::Slash => Token::Slash,
            Token::Percent => Token::Percent,
            Token::Backslash => Token::Backslash,
            Token::Ampersand => Token::Ampersand,
            Token::Caret => Token::Caret,
            Token::Vline => Token::Vline,
            Token::Epoint => Token::Epoint,
            Token::LogAnd => Token::LogAnd,
            Token::LogOr => Token::LogOr,
            Token::Equ => Token::Equ,
            Token::Nequ => Token::Nequ,
            Token::OpenParen => Token::OpenParen,
            Token::CloseParen => Token::CloseParen,
            Token::OpenBracket => Token::OpenBracket,
            Token::CloseBracket => Token::CloseBracket,
            Token::OpenCurly => Token::OpenCurly,
            Token::CloseCurly => Token::CloseCurly,
            Token::OpenArrow => Token::OpenArrow,
            Token::CloseArrow => Token::CloseArrow,
            Token::LeftArrow => Token::LeftArrow,
            Token::RightArrow => Token::RightArrow,
            Token::Keywords(k) => Token::Keywords(*k),
            Token::Inc => Token::Inc,
            Token::Dec => Token::Dec,
            Token::Dot => Token::Dot,
            Token::Comma => Token::Comma,
            Token::End => Token::End,
        }
    }
}

/// Characters an identifier or number run is made of: ASCII letters,
/// digits and underscore.
pub open spec fn spec_is_word_char(c: char) -> bool {
    ||| 'a' as int <= c as int <= 'z' as int
    ||| 'A' as int <= c as int <= 'Z' as int
    ||| '0' as int <= c as int <= '9' as int
    ||| c == '_'
}

/// Whitespace separates tokens and is never emitted.
pub open spec fn spec_is_space(c: char) -> bool {
    c == ' ' || c == '\t' || c == '\n' || c == '\r'
}

pub open spec fn spec_is_digit(c: char) -> bool {
    '0' as int <= c as int <= '9' as int
}

/// The fixed keyword table.
pub open spec fn spec_keyword_of(w: Seq<char>) -> Option<Keyword> {
    if w == seq!['i', 'f'] {
        Some(Keyword::If)
    } else if w == seq!['e', 'l', 's', 'e'] {
        Some(Keyword::Else)
    } else if w == seq!['f', 'o', 'r'] {
        Some(Keyword::For)
    } else if w == seq!['f', 'n', 'c'] {
        Some(Keyword::Fnc)
    } else if w == seq!['r', 'e', 't'] {
        Some(Keyword::Ret)
    } else {
        None
    }
}

pub open spec fn spec_all_digits(w: Seq<char>) -> bool {
    forall|k: int| 0 <= k < w.len() ==> spec_is_digit(#[trigger] w[k])
}

/// The integer a digit run denotes, most significant digit first.
pub open spec fn spec_number_value(w: Seq<char>) -> int
    decreases w.len(),
{
    if w.len() == 0 {
        0
    } else {
        spec_number_value(w.drop_last()) * 10 + (w.last() as int - '0' as int)
    }
}

/// What an alphanumeric run lexes to: a keyword if the table holds it,
/// else a number if it is all digits and fits an `i64`, else an
/// identifier carrying its exact text.
pub open spec fn spec_word_token(w: Seq<char>) -> SpecToken {
    match spec_keyword_of(w) {
        Some(k) => SpecToken::Keywords(k),
        None => if w.len() >= 1 && spec_all_digits(w) && spec_number_value(w) <= i64::MAX as int {
            SpecToken::Number(spec_number_value(w) as i64)
        } else {
            SpecToken::Name(Some(w))
        },
    }
}

/// Two-character operator spellings. Probed before any one-character
/// prefix, so `:=` never splits.
pub open spec fn spec_op2_token(a: char, b: char) -> Option<SpecToken> {
    if a == ':' && b == '=' {
        Some(SpecToken::Declaration)
    } else if a == '+' && b == '+' {
        Some(SpecToken::Inc)
    } else if a == '-' && b == '-' {
        Some(SpecToken::Dec)
    } else if a == '=' && b == '=' {
        Some(SpecToken::Equ)
    } else if a == '!' && b == '=' {
        Some(SpecToken::Nequ)
    } else if a == '<' && b == '<' {
        Some(SpecToken::LeftArrow)
    } else if a == '>' && b == '>' {
        Some(SpecToken::RightArrow)
    } else if a == '&' && b == '&' {
        Some(SpecToken::LogAnd)
    } else if a == '|' && b == '|' {
        Some(SpecToken::LogOr)
    } else {
        None
    }
}

/// One-character operator and punctuation spellings.
pub open spec fn spec_op1_token(a: char) -> Option<SpecToken> {
    if a == '=' {
        Some(SpecToken::Assign)
    } else if a == '+' {
        Some(SpecToken::Plus)
    } else if a == '-' {
        Some(SpecToken::Minus)
    } else if a == '*' {
        Some(SpecToken::Star)
    } else if a == '/' {
        Some(SpecToken::Slash)
    } else if a == '%' {
        Some(SpecToken::Percent)
    } else if a == '\\' {
        Some(SpecToken::Backslash)
    } else if a == '&' {
        Some(SpecToken::Ampersand)
    } else if a == '|' {
        Some(SpecToken::Vline)
    } else if a == '^' {
        Some(SpecToken::Caret)
    } else if a == '!' {
        Some(SpecToken::Epoint)
    } else if a == '#' {
        Some(SpecToken::Lattice)
    } else if a == '@' {
        Some(SpecToken::At)
    } else if a == '(' {
        Some(SpecToken::OpenParen)
    } else if a == ')' {
        Some(SpecToken::CloseParen)
    } else if a == '{' {
        Some(SpecToken::OpenCurly)
    } else if a == '}' {
        Some(SpecToken::CloseCurly)
    } else if a == '[' {
        Some(SpecToken::OpenBracket)
    } else if a == ']' {
        Some(SpecToken::CloseBracket)
    } else if a == '<' {
        Some(SpecToken::OpenArrow)
    } else if a == '>' {
        Some(SpecToken::CloseArrow)
    } else if a == '.' {
        Some(SpecToken::Dot)
    } else if a == ',' {
        Some(SpecToken::Comma)
    } else if a == ';' {
        Some(SpecToken::End)
    } else {
        None
    }
}

/// Greedy operator match at position `i`: the longest spelling wins.
/// Returns the token and the number of characters consumed.
pub open spec fn spec_op_at(s: Seq<char>, i: int) -> Option<(SpecToken, int)> {
    let two = if i + 2 <= s.len() {
        spec_op2_token(s[i], s[i + 1])
    } else {
        None
    };
    match two {
        Some(t) => Some((t, 2)),
        None => match spec_op1_token(s[i]) {
            Some(t) => Some((t, 1)),
            None => None,
        },
    }
}

/// The first position at or after `i` that is not a word character.
pub open spec fn spec_word_end(s: Seq<char>, i: int) -> int
    decreases s.len() - i when 0 <= i <= s.len()
{
    if i < s.len() && spec_is_word_char(s[i]) {
        spec_word_end(s, i + 1)
    } else {
        i
    }
}

pub proof fn lemma_word_end_bounds(s: Seq<char>, i: int)
    requires
        0 <= i <= s.len(),
    ensures
        i <= spec_word_end(s, i) <= s.len(),
        i < s.len() && spec_is_word_char(s[i]) ==> i + 1 <= spec_word_end(s, i),
    decreases s.len() - i,
{
    if i < s.len() && spec_is_word_char(s[i]) {
        lemma_word_end_bounds(s, i + 1);
    }
}

/// The model of tokenization from position `i` to the end of the text:
/// the token sequence, or the position of the first unrecognizable
/// character.
pub open spec fn spec_lex(s: Seq<char>, i: int) -> Result<Seq<SpecToken>, int>
    decreases s.len() - i when 0 <= i <= s.len() via spec_lex_decreases
{
    if i >= s.len() {
        Ok(Seq::empty())
    } else if spec_is_space(s[i]) {
        spec_lex(s, i + 1)
    } else if spec_is_word_char(s[i]) {
        let j = spec_word_end(s, i);
        match spec_lex(s, j) {
            Ok(rest) => Ok(seq![spec_word_token(s.subrange(i, j))] + rest),
            Err(e) => Err(e),
        }
    } else {
        match spec_op_at(s, i) {
            Some((t, consumed)) => match spec_lex(s, i + consumed) {
                Ok(rest) => Ok(seq![t] + rest),
                Err(e) => Err(e),
            },
            None => Err(i),
        }
    }
}

#[via_fn]
proof fn spec_lex_decreases(s: Seq<char>, i: int) {
    if 0 <= i < s.len() {
        lemma_word_end_bounds(s, i);
    }
}

/// Prepends already-produced tokens to the outcome of lexing a suffix.
pub open spec fn spec_lex_concat(
    pre: Seq<SpecToken>,
    r: Result<Seq<SpecToken>, int>,
) -> Result<Seq<SpecToken>, int> {
    match r {
        Ok(ts) => Ok(pre + ts),
        Err(e) => Err(e),
    }
}

/// The operator-length law: wherever the text holds `:=`, the
/// two-character probe wins over any one-character prefix, so the
/// tokenizer consumes both characters as one `Declaration` token and
/// can never emit an `Assign` pair there; a lone `:` is no token at
/// all.
pub proof fn lemma_op_length_precedence(s: Seq<char>, i: int)
    requires
        0 <= i,
        i + 2 <= s.len(),
        s[i] == ':',
        s[i + 1] == '=',
    ensures
        spec_op_at(s, i) == Some((SpecToken::Declaration, 2int)),
        spec_op1_token(':') is None,
{
}

/// Whether `c` may continue an identifier or number run.
pub fn is_alph(c: char) -> (r: bool)
    ensures
        r == spec_is_word_char(c),
{
    (c >= 'a' && c <= 'z') || (c >= 'A' && c <= 'Z') || (c >= '0' && c <= '9') || c == '_'
}

fn is_space(c: char) -> (r: bool)
    ensures
        r == spec_is_space(c),
{
    c == ' ' || c == '\t' || c == '\n' || c == '\r'
}

proof fn lemma_all_digits_prefix(w: Seq<char>, k: int)
    requires
        spec_all_digits(w),
        0 <= k <= w.len(),
    ensures
        spec_all_digits(w.subrange(0, k)),
{
    assert forall|m: int| 0 <= m < k implies spec_is_digit(#[trigger] w.subrange(0, k)[m]) by {
        assert(w.subrange(0, k)[m] == w[m]);
    }
}

proof fn lemma_number_value_nonneg(w: Seq<char>)
    requires
        spec_all_digits(w),
    ensures
        spec_number_value(w) >= 0,
    decreases w.len(),
{
    if w.len() > 0 {
        lemma_all_digits_prefix(w, w.len() - 1);
        assert(w.drop_last() == w.subrange(0, w.len() - 1));
        lemma_number_value_nonneg(w.drop_last());
        assert(spec_is_digit(w[w.len() - 1]));
    }
}

/// The value of a digit run never falls when the run is extended to the
/// right.
proof fn lemma_number_value_mono(s: Seq<char>, k: int)
    requires
        spec_all_digits(s),
        0 <= k <= s.len(),
    ensures
        spec_number_value(s.subrange(0, k)) <= spec_number_value(s),
    decreases s.len() - k,
{
    if k == s.len() {
        assert(s.subrange(0, k) =~= s);
    } else {
        let p = s.subrange(0, k + 1);
        assert(p.drop_last() =~= s.subrange(0, k));
        assert(p.last() == s[k]);
        lemma_all_digits_prefix(s, k);
        lemma_number_value_nonneg(s.subrange(0, k));
        assert(spec_is_digit(s[k]));
        assert(spec_number_value(p) == spec_number_value(s.subrange(0, k)) * 10 + (s[k] as int
            - '0' as int));
        lemma_number_value_mono(s, k + 1);
    }
}

/// Looks an alphanumeric run up in the fixed keyword table.
fn keyword_token(cv: &Vec<char>) -> (r: Option<Keyword>)
    ensures
        r == spec_keyword_of(cv@),
{
    if cv.len() == 2 && cv[0] == 'i' && cv[1] == 'f' {
        proof {
            assert(cv@ =~= seq!['i', 'f']);
        }
        Some(Keyword::If)
    } else if cv.len() == 4 && cv[0] == 'e' && cv[1] == 'l' && cv[2] == 's' && cv[3] == 'e' {
        proof {
            assert(cv@ =~= seq!['e', 'l', 's', 'e']);
        }
        Some(Keyword::Else)
    } else if cv.len() == 3 && cv[0] == 'f' && cv[1] == 'o' && cv[2] == 'r' {
        proof {
            assert(cv@ =~= seq!['f', 'o', 'r']);
        }
        Some(Keyword::For)
    } else if cv.len() == 3 && cv[0] == 'f' && cv[1] == 'n' && cv[2] == 'c' {
        proof {
            assert(cv@ =~= seq!['f', 'n', 'c']);
        }
        Some(Keyword::Fnc)
    } else if cv.len() == 3 && cv[0] == 'r' && cv[1] == 'e' && cv[2] == 't' {
        proof {
            assert(cv@ =~= seq!['r', 'e', 't']);
        }
        Some(Keyword::Ret)
    } else {
        None
    }
}

/// Tries an alphanumeric run as a decimal integer literal; `None` when a
/// character is no digit or the value does not fit an `i64`.
fn parse_number(cv: &Vec<char>) -> (r: Option<i64>)
    ensures
        match r {
            Some(v) => cv@.len() >= 1 && spec_all_digits(cv@) && spec_number_value(cv@)
                <= i64::MAX as int && v as int == spec_number_value(cv@),
            None => !(cv@.len() >= 1 && spec_all_digits(cv@) && spec_number_value(cv@)
                <= i64::MAX as int),
        },
{
    if cv.len() == 0 {
        return None;
    }
    let mut acc: i64 = 0;
    let mut k: usize = 0;
    proof {
        assert(cv@.subrange(0, 0) =~= Seq::<char>::empty());
    }
    while k < cv.len()
        invariant
            0 <= k <= cv@.len(),
            spec_all_digits(cv@.subrange(0, k as int)),
            0 <= acc,
            acc as int == spec_number_value(cv@.subrange(0, k as int)),
        decreases cv@.len() - k,
    {
        let c = cv[k];
        if c < '0' || c > '9' {
            proof {
                assert(!spec_is_digit(cv@[k as int]));
            }
            return None;
        }
        let d: i64 = match c {
            '0' => 0,
            '1' => 1,
            '2' => 2,
            '3' => 3,
            '4' => 4,
            '5' => 5,
            '6' => 6,
            '7' => 7,
            '8' => 8,
            _ => 9,
        };
        proof {
            assert(d as int == cv@[k as int] as int - '0' as int);
        }
        if acc > (i64::MAX - d) / 10 {
            proof {
                let x = i64::MAX as int - d as int;
                assert(x == 10 * (x / 10) + x % 10 && 0 <= x % 10 < 10);
                assert(acc as int * 10 + d as int > i64::MAX as int);
                if spec_all_digits(cv@) {
                    let p = cv@.subrange(0, k as int + 1);
                    assert(p.drop_last() =~= cv@.subrange(0, k as int));
                    assert(p.last() == cv@[k as int]);
                    assert(spec_number_value(p) == acc as int * 10 + d as int);
                    lemma_number_value_mono(cv@, k as int + 1);
                    assert(spec_number_value(cv@) > i64::MAX as int);
                }
            }
            return None;
        }
        proof {
            let x = i64::MAX as int - d as int;
            assert(x == 10 * (x / 10) + x % 10 && 0 <= x % 10 < 10);
            assert(acc as int * 10 + d as int <= i64::MAX as int);
            let p = cv@.subrange(0, k as int + 1);
            assert(p.drop_last() =~= cv@.subrange(0, k as int));
            assert(p.last() == cv@[k as int]);
            assert(spec_number_value(p) == acc as int * 10 + d as int);
            assert(spec_all_digits(p)) by {
                assert forall|m: int| 0 <= m < p.len() implies spec_is_digit(#[trigger] p[m]) by {
                    if m < k as int {
                        assert(p[m] == cv@.subrange(0, k as int)[m]);
                    } else {
                        assert(p[m] == cv@[k as int]);
                    }
                }
            }
        }
        acc = acc * 10 + d;
        k = k + 1;
    }
    proof {
        assert(cv@.subrange(0, k as int) =~= cv@);
    }
    Some(acc)
}

/// Collects the characters of a slice into a vector.
fn str_chars(s: &str) -> (r: Vec<char>)
    ensures
        r@ == s@,
{
    let n = s.unicode_len();
    let mut v: Vec<char> = Vec::new();
    let mut k: usize = 0;
    while k < n
        invariant
            k <= n,
            n == s@.len(),
            v@ =~= s@.subrange(0, k as int),
        decreases n - k,
    {
        let c = s.get_char(k);
        v.push(c);
        k = k + 1;
        proof {
            assert(v@ =~= s@.subrange(0, k as int));
        }
    }
    proof {
        assert(s@.subrange(0, n as int) =~= s@);
    }
    v
}

/// What one alphanumeric run lexes to: keyword, then integer literal,
/// then identifier.
fn word_token(word: &str) -> (t: Token)
    ensures
        t@ == spec_word_token(word@),
{
    let cv = str_chars(word);
    match keyword_token(&cv) {
        Some(k) => Token::Keywords(k),
        None => match parse_number(&cv) {
            Some(v) => Token::Number(v),
            None => Token::Name(Some(String::from_str(word))),
        },
    }
}

/// The two-character operator table.
fn op2_token(a: char, b: char) -> (r: Option<Token>)
    ensures
        r.deep_view() == spec_op2_token(a, b),
{
    if a == ':' && b == '=' {
        Some(Token::Declaration)
    } else if a == '+' && b == '+' {
        Some(Token::Inc)
    } else if a == '-' && b == '-' {
        Some(Token::Dec)
    } else if a == '=' && b == '=' {
        Some(Token::Equ)
    } else if a == '!' && b == '=' {
        Some(Token::Nequ)
    } else if a == '<' && b == '<' {
        Some(Token::LeftArrow)
    } else if a == '>' && b == '>' {
        Some(Token::RightArrow)
    } else if a == '&' && b == '&' {
        Some(Token::LogAnd)
    } else if a == '|' && b == '|' {
        Some(Token::LogOr)
    } else {
        None
    }
}

/// The one-character operator and punctuation table.
fn op1_token(a: char) -> (r: Option<Token>)
    ensures
        r.deep_view() == spec_op1_token(a),
{
    if a == '=' {
        Some(Token::Assign)
    } else if a == '+' {
        Some(Token::Plus)
    } else if a == '-' {
        Some(Token::Minus)
    } else if a == '*' {
        Some(Token::Star)
    } else if a == '/' {
        Some(Token::Slash)
    } else if a == '%' {
        Some(Token::Percent)
    } else if a == '\\' {
        Some(Token::Backslash)
    } else if a == '&' {
        Some(Token::Ampersand)
    } else if a == '|' {
        Some(Token::Vline)
    } else if a == '^' {
        Some(Token::Caret)
    } else if a == '!' {
        Some(Token::Epoint)
    } else if a == '#' {
        Some(Token::Lattice)
    } else if a == '@' {
        Some(Token::At)
    } else if a == '(' {
        Some(Token::OpenParen)
    } else if a == ')' {
        Some(Token::CloseParen)
    } else if a == '{' {
        Some(Token::OpenCurly)
    } else if a == '}' {
        Some(Token::CloseCurly)
    } else if a == '[' {
        Some(Token::OpenBracket)
    } else if a == ']' {
        Some(Token::CloseBracket)
    } else if a == '<' {
        Some(Token::OpenArrow)
    } else if a == '>' {
        Some(Token::CloseArrow)
    } else if a == '.' {
        Some(Token::Dot)
    } else if a == ',' {
        Some(Token::Comma)
    } else if a == ';' {
        Some(Token::End)
    } else {
        None
    }
}

/// Tokenizes the whole source text, left to right in a single pass.
///
/// Returns exactly the token sequence of the model `spec_lex`, or a
/// `LexError` carrying the position of the first character that starts
/// no lexeme, exactly when the model does.
pub fn lex(string: String) -> (r: Result<Vec<Token>, CompileError>)
    ensures
        match r {
            Ok(tokens) => spec_lex(string@, 0) == Ok::<Seq<SpecToken>, int>(tokens.deep_view()),
            Err(e) => match e {
                CompileError::LexError { index } => spec_lex(string@, 0) == Err::<
                    Seq<SpecToken>,
                    int,
                >(index as int),
                _ => false,
            },
        },
{
    let s: &str = string.as_str();
    let n: usize = s.unicode_len();
    let mut tokens: Vec<Token> = Vec::new();
    let mut i: usize = 0;
    proof {
        assert(tokens.deep_view() =~= Seq::<SpecToken>::empty());
    }
    while i < n
        invariant
            i <= n,
            n == s@.len(),
            s@ == string@,
            spec_lex(s@, 0) == spec_lex_concat(tokens.deep_view(), spec_lex(s@, i as int)),
        decreases n - i,
    {
        let c = s.get_char(i);
        if is_space(c) {
            i = i + 1;
        } else if is_alph(c) {
            let mut j: usize = i + 1;
            while j < n
                invariant
                    i + 1 <= j <= n,
                    n == s@.len(),
                    i < n,
                    spec_is_word_char(s@[i as int]),
                    spec_word_end(s@, i as int) == spec_word_end(s@, j as int),
                ensures
                    i + 1 <= j <= n,
                    spec_word_end(s@, i as int) == j,
                decreases n - j,
            {
                let cj = s.get_char(j);
                if !is_alph(cj) {
                    break ;
                }
                j = j + 1;
            }
            let word = s.substring_char(i, j);
            let t = word_token(word);
            let ghost pre = tokens.deep_view();
            tokens.push(t);
            proof {
                assert(tokens.deep_view() =~= pre + seq![t@]);
                let ii = i as int;
                let jj = j as int;
                let r2 = spec_lex(s@, jj);
                assert(spec_lex(s@, ii) == (match r2 {
                    Ok(rest) => Ok::<Seq<SpecToken>, int>(
                        seq![spec_word_token(s@.subrange(ii, jj))] + rest,
                    ),
                    Err(e) => Err(e),
                }));
                match r2 {
                    Ok(rest) => {
                        assert(pre + (seq![t@] + rest) =~= (pre + seq![t@]) + rest);
                    },
                    Err(_) => {},
                }
            }
            i = j;
        } else {
            let mut tok2: Option<Token> = None;
            if i + 1 < n {
                let c2 = s.get_char(i + 1);
                tok2 = op2_token(c, c2);
            }
            match tok2 {
                Some(t) => {
                    let ghost pre = tokens.deep_view();
                    tokens.push(t);
                    proof {
                        assert(tokens.deep_view() =~= pre + seq![t@]);
                        let ii = i as int;
                        assert(spec_op_at(s@, ii) == Some((t@, 2int)));
                        let r2 = spec_lex(s@, ii + 2);
                        match r2 {
                            Ok(rest) => {
                                assert(pre + (seq![t@] + rest) =~= (pre + seq![t@]) + rest);
                            },
                            Err(_) => {},
                        }
                    }
                    i = i + 2;
                },
                None => {
                    match op1_token(c) {
                        Some(t) => {
                            let ghost pre = tokens.deep_view();
                            tokens.push(t);
                            proof {
                                assert(tokens.deep_view() =~= pre + seq![t@]);
                                let ii = i as int;
                                assert(spec_op_at(s@, ii) == Some((t@, 1int)));
                                let r2 = spec_lex(s@, ii + 1);
                                match r2 {
                                    Ok(rest) => {
                                        assert(pre + (seq![t@] + rest) =~= (pre + seq![t@]) + rest);
                                    },
                                    Err(_) => {},
                                }
                            }
                            i = i + 1;
                        },
                        None => {
                            proof {
                                let ii = i as int;
                                assert(spec_op_at(s@, ii) is None);
                                assert(spec_lex(s@, ii) == Err::<Seq<SpecToken>, int>(ii));
                            }
                            return Err(CompileError::LexError { index: i });
                        },
                    }
                },
            }
        }
    }
    proof {
        assert(spec_lex(s@, i as int) == Ok::<Seq<SpecToken>, int>(Seq::empty()));
        assert(tokens.deep_view() + Seq::<SpecToken>::empty() =~= tokens.deep_view());
    }
    Ok(tokens)
}

} // verus!
