//! The lexer: cuts a source text into tokens.
//!
//! Blanks separate tokens and are dropped. At every other place the longest
//! token that starts there is taken: `fnord` is one name, `==` is one
//! operator, `-5` is one number. Where a word is spelled like a keyword it is
//! the keyword. A character with which no token starts is an error of its
//! own, and the lexer goes on behind it.

use vstd::prelude::*;
use vstd::std_specs::iter::IteratorSpec;
use vstd::string::StrSliceExecFns;

verus! {

/// Why a piece of the source is no token.
#[derive(Debug, PartialEq, Clone, Copy)]
pub enum LexingError {
    /// The digits spell a number that 64 bits cannot hold.
    NumberParseError,
    /// No token starts with the character.
    Other,
}

impl Default for LexingError {
    fn default() -> (r: LexingError)
        ensures
            r == LexingError::Other,
    {
        LexingError::Other
    }
}

/// Mathematical model of a [`Token`].
pub enum TokenView {
    Fn,
    Return,
    Let,
    If,
    Else,
    Loop,
    At,
    Break,
    LPar,
    RPar,
    Semicol,
    LCurl,
    RCurl,
    Colon,
    Plus,
    Mult,
    Minus,
    Eq,
    Assign,
    Smaller,
    Larger,
    Not,
    NotEq,
    DotDot,
    Id(Seq<char>),
    Num(i64),
    Bool(bool),
}

/// A token of the language.
#[derive(Debug, PartialEq)]
pub enum Token {
    /// `fn`
    Fn,
    /// `return`
    Return,
    /// `let`
    Let,
    /// `if`
    If,
    /// `else`
    Else,
    /// `loop`
    Loop,
    /// `@`
    At,
    /// `break`
    Break,
    /// `(`
    LPar,
    /// `)`
    RPar,
    /// `;`
    Semicol,
    /// `{`
    LCurl,
    /// `}`
    RCurl,
    /// `:`
    Colon,
    /// `+`
    Plus,
    /// `*`
    Mult,
    /// `-`
    Minus,
    /// `==`
    Eq,
    /// `=`
    Assign,
    /// `<`
    Smaller,
    /// `>`
    Larger,
    /// `!`
    Not,
    /// `!=`
    NotEq,
    /// `..`
    DotDot,
    /// A name: a letter, then letters, digits and underscores.
    Id(String),
    /// A number: digits, with or without a minus sign before them.
    Num(i64),
    /// `true` or `false`
    Bool(bool),
}

impl View for Token {
    type V = TokenView;

    open spec fn view(&self) -> TokenView {
        match self {
            Token::Fn => TokenView::Fn,
            Token::Return => TokenView::Return,
            Token::Let => TokenView::Let,
            Token::If => TokenView::If,
            Token::Else => TokenView::Else,
            Token::Loop => TokenView::Loop,
            Token::At => TokenView::At,
            Token::Break => TokenView::Break,
            Token::LPar => TokenView::LPar,
            Token::RPar => TokenView::RPar,
            Token::Semicol => TokenView::Semicol,
            Token::LCurl => TokenView::LCurl,
            Token::RCurl => TokenView::RCurl,
            Token::Colon => TokenView::Colon,
            Token::Plus => TokenView::Plus,
            Token::Mult => TokenView::Mult,
            Token::Minus => TokenView::Minus,
            Token::Eq => TokenView::Eq,
            Token::Assign => TokenView::Assign,
            Token::Smaller => TokenView::Smaller,
            Token::Larger => TokenView::Larger,
            Token::Not => TokenView::Not,
            Token::NotEq => TokenView::NotEq,
            Token::DotDot => TokenView::DotDot,
            Token::Id(name) => TokenView::Id(name@),
            Token::Num(n) => TokenView::Num(*n),
            Token::Bool(b) => TokenView::Bool(*b),
        }
    }
}

/// What the lexer makes of one piece of the source.
pub type Lexeme = Result<TokenView, LexingError>;

/// The model of what the lexer hands out for one piece of the source.
pub open spec fn lexeme_view(item: Result<Token, LexingError>) -> Lexeme {
    match item {
        Ok(token) => Ok(token@),
        Err(error) => Err(error),
    }
}

/// The models of `items`, in order.
pub open spec fn lexemes_view(items: Seq<Result<Token, LexingError>>) -> Seq<Lexeme> {
    Seq::new(items.len(), |i: int| lexeme_view(items[i]))
}

/// Whether `c` separates tokens: a space, a tab, a line feed or a form feed.
pub open spec fn is_blank(c: char) -> bool {
    c == ' ' || c == '\t' || c == '\n' || c == '\u{c}'
}

/// Whether `c` is a letter of the Latin alphabet.
pub open spec fn is_letter(c: char) -> bool {
    ('a' <= c && c <= 'z') || ('A' <= c && c <= 'Z')
}

/// Whether `c` is a decimal digit.
pub open spec fn is_digit(c: char) -> bool {
    '0' <= c && c <= '9'
}

/// Whether `c` may stand in a name behind its first letter.
pub open spec fn is_word(c: char) -> bool {
    is_letter(c) || is_digit(c) || c == '_'
}

/// How many characters from `from` on may stand in a name.
pub open spec fn word_len(s: Seq<char>, from: int) -> nat
    decreases s.len() - from,
{
    if 0 <= from < s.len() && is_word(s[from]) {
        1 + word_len(s, from + 1)
    } else {
        0
    }
}

/// How many characters from `from` on are digits.
pub open spec fn digits_len(s: Seq<char>, from: int) -> nat
    decreases s.len() - from,
{
    if 0 <= from < s.len() && is_digit(s[from]) {
        1 + digits_len(s, from + 1)
    } else {
        0
    }
}

/// The token that `word` spells: a keyword, a boolean, or else a name.
pub open spec fn word_token(word: Seq<char>) -> TokenView {
    if word == "fn"@ {
        TokenView::Fn
    } else if word == "return"@ {
        TokenView::Return
    } else if word == "let"@ {
        TokenView::Let
    } else if word == "if"@ {
        TokenView::If
    } else if word == "else"@ {
        TokenView::Else
    } else if word == "loop"@ {
        TokenView::Loop
    } else if word == "break"@ {
        TokenView::Break
    } else if word == "true"@ {
        TokenView::Bool(true)
    } else if word == "false"@ {
        TokenView::Bool(false)
    } else {
        TokenView::Id(word)
    }
}

/// The digit that `c` is.
pub open spec fn digit_value(c: char) -> nat {
    (c as u32 - '0' as u32) as nat
}

/// The number that `digits` spell in base ten.
pub open spec fn decimal(digits: Seq<char>) -> nat
    decreases digits.len(),
{
    if digits.len() == 0 {
        0
    } else {
        decimal(digits.drop_last()) * 10 + digit_value(digits.last())
    }
}

/// The number that `digits` spell, below zero where `negative` is set.
pub open spec fn signed_decimal(negative: bool, digits: Seq<char>) -> int {
    if negative {
        -(decimal(digits) as int)
    } else {
        decimal(digits) as int
    }
}

/// The token of a number: the number itself if 64 bits hold it.
pub open spec fn number_token(negative: bool, digits: Seq<char>) -> Lexeme {
    let value = signed_decimal(negative, digits);
    if i64::MIN <= value <= i64::MAX {
        Ok(TokenView::Num(value as i64))
    } else {
        Err(LexingError::NumberParseError)
    }
}

/// The token that is the one character `c`.
pub open spec fn punctuation(c: char) -> Option<TokenView> {
    if c == '@' {
        Some(TokenView::At)
    } else if c == '(' {
        Some(TokenView::LPar)
    } else if c == ')' {
        Some(TokenView::RPar)
    } else if c == ';' {
        Some(TokenView::Semicol)
    } else if c == '{' {
        Some(TokenView::LCurl)
    } else if c == '}' {
        Some(TokenView::RCurl)
    } else if c == ':' {
        Some(TokenView::Colon)
    } else if c == '+' {
        Some(TokenView::Plus)
    } else if c == '*' {
        Some(TokenView::Mult)
    } else if c == '-' {
        Some(TokenView::Minus)
    } else if c == '=' {
        Some(TokenView::Assign)
    } else if c == '<' {
        Some(TokenView::Smaller)
    } else if c == '>' {
        Some(TokenView::Larger)
    } else if c == '!' {
        Some(TokenView::Not)
    } else {
        None
    }
}

/// The token that is the two characters `c` and `d`.
pub open spec fn double_punctuation(c: char, d: char) -> Option<TokenView> {
    if c == '=' && d == '=' {
        Some(TokenView::Eq)
    } else if c == '!' && d == '=' {
        Some(TokenView::NotEq)
    } else if c == '.' && d == '.' {
        Some(TokenView::DotDot)
    } else {
        None
    }
}

/// What starts at place `at` of `s`, where no blank stands, and the place
/// behind it.
pub open spec fn scan(s: Seq<char>, at: int) -> (Lexeme, int)
    recommends
        0 <= at < s.len(),
{
    let c = s[at];
    if is_letter(c) {
        let end = at + 1 + word_len(s, at + 1);
        (Ok(word_token(s.subrange(at, end))), end)
    } else if is_digit(c) {
        let end = at + 1 + digits_len(s, at + 1);
        (number_token(false, s.subrange(at, end)), end)
    } else if c == '-' && at + 1 < s.len() && is_digit(s[at + 1]) {
        let end = at + 2 + digits_len(s, at + 2);
        (number_token(true, s.subrange(at + 1, end)), end)
    } else if at + 1 < s.len() && double_punctuation(c, s[at + 1]) is Some {
        (Ok(double_punctuation(c, s[at + 1])->0), at + 2)
    } else {
        match punctuation(c) {
            Some(token) => (Ok(token), at + 1),
            None => (Err(LexingError::Other), at + 1),
        }
    }
}

/// A run of characters ends inside the text.
proof fn lemma_run_ends(s: Seq<char>, from: int)
    requires
        0 <= from <= s.len(),
    ensures
        from + word_len(s, from) <= s.len(),
        from + digits_len(s, from) <= s.len(),
    decreases s.len() - from,
{
    if from < s.len() {
        lemma_run_ends(s, from + 1);
    }
}

/// What starts at a place of the text ends behind that place and inside the
/// text.
pub proof fn lemma_scan_advances(s: Seq<char>, at: int)
    requires
        0 <= at < s.len(),
    ensures
        at < scan(s, at).1 <= s.len(),
{
    lemma_run_ends(s, at + 1);
    if at + 2 <= s.len() {
        lemma_run_ends(s, at + 2);
    }
}

/// What the lexer makes of `s` from place `at` on. (The test on the place
/// behind a token always holds: see `lemma_scan_advances`.)
pub open spec fn tokens_from(s: Seq<char>, at: int) -> Seq<Lexeme>
    decreases s.len() - at,
{
    if at < 0 || at >= s.len() {
        Seq::empty()
    } else if is_blank(s[at]) {
        tokens_from(s, at + 1)
    } else {
        let (lexeme, end) = scan(s, at);
        if at < end <= s.len() {
            seq![lexeme] + tokens_from(s, end)
        } else {
            seq![lexeme]
        }
    }
}

/// What the lexer makes of `s`.
pub open spec fn tokens(s: Seq<char>) -> Seq<Lexeme> {
    tokens_from(s, 0)
}

/// The characters of `source`, in order.
fn chars_of(source: &str) -> (out: Vec<char>)
    ensures
        out@ == source@,
{
    broadcast use vstd::string::group_string_axioms;

    let mut out: Vec<char> = Vec::new();
    let mut it = source.chars();
    loop
        invariant
            out@ + it.remaining() == source@,
            it.obeys_prophetic_iter_laws(),
        ensures
            out@ == source@,
        decreases source@.len() - out@.len(),
    {
        let ghost before = it.remaining();
        match it.next() {
            Some(c) => {
                assert(out@.push(c) + before.drop_first() =~= out@ + before);
                out.push(c);
            },
            None => {
                assert(out@ + before =~= out@);
                break ;
            },
        }
    }
    out
}

fn blank(c: char) -> (r: bool)
    ensures
        r == is_blank(c),
{
    c == ' ' || c == '\t' || c == '\n' || c == '\u{c}'
}

fn letter(c: char) -> (r: bool)
    ensures
        r == is_letter(c),
{
    ('a' <= c && c <= 'z') || ('A' <= c && c <= 'Z')
}

fn digit(c: char) -> (r: bool)
    ensures
        r == is_digit(c),
{
    '0' <= c && c <= '9'
}

/// The place behind the longest run from `from` on of characters that may
/// stand in a name.
fn word_end(chars: &Vec<char>, from: usize) -> (end: usize)
    requires
        from <= chars.len(),
    ensures
        from <= end <= chars.len(),
        end == from + word_len(chars@, from as int),
{
    let mut end: usize = from;
    while end < chars.len() && (letter(chars[end]) || digit(chars[end]) || chars[end] == '_')
        invariant
            from <= end <= chars.len(),
            from + word_len(chars@, from as int) == end + word_len(chars@, end as int),
        decreases chars.len() - end,
    {
        end += 1;
    }
    end
}

/// The place behind the longest run of digits from `from` on.
fn digits_end(chars: &Vec<char>, from: usize) -> (end: usize)
    requires
        from <= chars.len(),
    ensures
        from <= end <= chars.len(),
        end == from + digits_len(chars@, from as int),
{
    let mut end: usize = from;
    while end < chars.len() && digit(chars[end])
        invariant
            from <= end <= chars.len(),
            from + digits_len(chars@, from as int) == end + digits_len(chars@, end as int),
        decreases chars.len() - end,
    {
        end += 1;
    }
    end
}

/// Whether the characters from `from` to `to` spell `word`.
fn spells(chars: &Vec<char>, from: usize, to: usize, word: &str) -> (r: bool)
    requires
        from <= to <= chars.len(),
    ensures
        r == (chars@.subrange(from as int, to as int) == word@),
{
    let n: usize = word.unicode_len();
    if to - from != n {
        return false;
    }
    let mut i: usize = 0;
    while i < n
        invariant
            i <= n,
            n == word@.len(),
            to - from == n,
            from <= to <= chars.len(),
            forall|j: int| 0 <= j < i ==> chars@[from + j] == word@[j],
        decreases n - i,
    {
        if chars[from + i] != word.get_char(i) {
            assert(chars@.subrange(from as int, to as int)[i as int] != word@[i as int]);
            return false;
        }
        i += 1;
    }
    assert(chars@.subrange(from as int, to as int) =~= word@);
    true
}

/// The token of the word that stands from `from` to `to`.
fn word(source: &str, chars: &Vec<char>, from: usize, to: usize) -> (token: Token)
    requires
        chars@ == source@,
        from <= to <= chars.len(),
    ensures
        token@ == word_token(chars@.subrange(from as int, to as int)),
{
    if spells(chars, from, to, "fn") {
        Token::Fn
    } else if spells(chars, from, to, "return") {
        Token::Return
    } else if spells(chars, from, to, "let") {
        Token::Let
    } else if spells(chars, from, to, "if") {
        Token::If
    } else if spells(chars, from, to, "else") {
        Token::Else
    } else if spells(chars, from, to, "loop") {
        Token::Loop
    } else if spells(chars, from, to, "break") {
        Token::Break
    } else if spells(chars, from, to, "true") {
        Token::Bool(true)
    } else if spells(chars, from, to, "false") {
        Token::Bool(false)
    } else {
        Token::Id(source.substring_char(from, to).to_owned())
    }
}

/// A number never gets smaller when digits are added behind it.
proof fn lemma_decimal_grows(digits: Seq<char>, n: int)
    requires
        0 <= n <= digits.len(),
    ensures
        decimal(digits.take(n)) <= decimal(digits),
    decreases digits.len() - n,
{
    if n < digits.len() {
        lemma_decimal_grows(digits, n + 1);
        assert(digits.take(n + 1).drop_last() =~= digits.take(n));
    } else {
        assert(digits.take(n) =~= digits);
    }
}

/// The token of the number whose digits stand from `from` to `to`.
fn number(chars: &Vec<char>, negative: bool, from: usize, to: usize) -> (r: Result<
    Token,
    LexingError,
>)
    requires
        from <= to <= chars.len(),
        forall|i: int| from <= i < to ==> is_digit(chars@[i]),
    ensures
        lexeme_view(r) == number_token(negative, chars@.subrange(from as int, to as int)),
{
    let ghost digits = chars@.subrange(from as int, to as int);
    let mut magnitude: u64 = 0;
    let mut i: usize = from;
    assert(digits.take(0) =~= Seq::<char>::empty());
    while i < to
        invariant
            from <= i <= to <= chars.len(),
            digits == chars@.subrange(from as int, to as int),
            forall|j: int| from <= j < to ==> is_digit(chars@[j]),
            magnitude == decimal(digits.take(i - from)),
        decreases to - i,
    {
        let c: char = chars[i];
        let d: u64 = (c as u32 - '0' as u32) as u64;
        proof {
            assert(digits.take(i - from + 1).drop_last() =~= digits.take(i - from));
            assert(digits.take(i - from + 1).last() == c);
            lemma_decimal_grows(digits, i - from + 1);
        }
        if magnitude > (u64::MAX - d) / 10 {
            return Err(LexingError::NumberParseError);
        }
        magnitude = magnitude * 10 + d;
        i += 1;
    }
    assert(digits.take(to - from) =~= digits);
    if negative {
        if magnitude > 0x8000_0000_0000_0000 {
            Err(LexingError::NumberParseError)
        } else if magnitude == 0x8000_0000_0000_0000 {
            Ok(Token::Num(i64::MIN))
        } else {
            Ok(Token::Num(-(magnitude as i64)))
        }
    } else {
        if magnitude > 0x7FFF_FFFF_FFFF_FFFF {
            Err(LexingError::NumberParseError)
        } else {
            Ok(Token::Num(magnitude as i64))
        }
    }
}

/// The token that is the one character `c`.
fn single(c: char) -> (r: Option<Token>)
    ensures
        match r {
            Some(token) => punctuation(c) == Some(token@),
            None => punctuation(c) is None,
        },
{
    if c == '@' {
        Some(Token::At)
    } else if c == '(' {
        Some(Token::LPar)
    } else if c == ')' {
        Some(Token::RPar)
    } else if c == ';' {
        Some(Token::Semicol)
    } else if c == '{' {
        Some(Token::LCurl)
    } else if c == '}' {
        Some(Token::RCurl)
    } else if c == ':' {
        Some(Token::Colon)
    } else if c == '+' {
        Some(Token::Plus)
    } else if c == '*' {
        Some(Token::Mult)
    } else if c == '-' {
        Some(Token::Minus)
    } else if c == '=' {
        Some(Token::Assign)
    } else if c == '<' {
        Some(Token::Smaller)
    } else if c == '>' {
        Some(Token::Larger)
    } else if c == '!' {
        Some(Token::Not)
    } else {
        None
    }
}

/// The token that is the two characters `c` and `d`.
fn double(c: char, d: char) -> (r: Option<Token>)
    ensures
        match r {
            Some(token) => double_punctuation(c, d) == Some(token@),
            None => double_punctuation(c, d) is None,
        },
{
    if c == '=' && d == '=' {
        Some(Token::Eq)
    } else if c == '!' && d == '=' {
        Some(Token::NotEq)
    } else if c == '.' && d == '.' {
        Some(Token::DotDot)
    } else {
        None
    }
}

/// Every character that `digits_len` counts is a digit.
proof fn lemma_digits(s: Seq<char>, from: int, i: int)
    requires
        0 <= from <= i < from + digits_len(s, from),
    ensures
        i < s.len(),
        is_digit(s[i]),
    decreases i - from,
{
    if from < i {
        lemma_digits(s, from + 1, i);
    }
}

/// Reads what starts at place `at`, where no blank stands.
fn scan_one(source: &str, chars: &Vec<char>, at: usize) -> (r: (Result<Token, LexingError>, usize))
    requires
        chars@ == source@,
        at < chars.len(),
    ensures
        at < r.1 <= chars.len(),
        (lexeme_view(r.0), r.1 as int) == scan(chars@, at as int),
{
    let c: char = chars[at];
    if letter(c) {
        let end: usize = word_end(chars, at + 1);
        (Ok(word(source, chars, at, end)), end)
    } else if digit(c) {
        let end: usize = digits_end(chars, at + 1);
        proof {
            assert forall|i: int| at <= i < end implies is_digit(chars@[i]) by {
                if i > at {
                    lemma_digits(chars@, at + 1, i);
                }
            }
        }
        (number(chars, false, at, end), end)
    } else if c == '-' && at + 1 < chars.len() && digit(chars[at + 1]) {
        let end: usize = digits_end(chars, at + 2);
        proof {
            assert forall|i: int| at + 1 <= i < end implies is_digit(chars@[i]) by {
                if i > at + 1 {
                    lemma_digits(chars@, at + 2, i);
                }
            }
        }
        (number(chars, true, at + 1, end), end)
    } else {
        if at + 1 < chars.len() {
            match double(c, chars[at + 1]) {
                Some(token) => {
                    return (Ok(token), at + 2);
                },
                None => {},
            }
        }
        match single(c) {
            Some(token) => (Ok(token), at + 1),
            None => (Err(LexingError::Other), at + 1),
        }
    }
}

impl Token {
    /// Cuts `source` into tokens. What is no token stands as an error in its
    /// place among them.
    pub fn lexer(source: &str) -> (r: Vec<Result<Token, LexingError>>)
        ensures
            lexemes_view(r@) == tokens(source@),
    {
        let chars = chars_of(source);
        let mut out: Vec<Result<Token, LexingError>> = Vec::new();
        let mut at: usize = 0;
        assert(lexemes_view(out@) + tokens_from(chars@, 0) =~= tokens(chars@));
        while at < chars.len()
            invariant
                at <= chars.len(),
                chars@ == source@,
                lexemes_view(out@) + tokens_from(chars@, at as int) == tokens(chars@),
            decreases chars.len() - at,
        {
            if blank(chars[at]) {
                at += 1;
            } else {
                let ghost before = lexemes_view(out@);
                let (item, end) = scan_one(source, &chars, at);
                proof {
                    assert(lexemes_view(out@.push(item)) =~= before.push(lexeme_view(item)));
                    assert(before.push(lexeme_view(item)) + tokens_from(chars@, end as int)
                        =~= before + (seq![lexeme_view(item)] + tokens_from(
                        chars@,
                        end as int,
                    )));
                }
                out.push(item);
                at = end;
            }
        }
        assert(lexemes_view(out@) + Seq::<Lexeme>::empty() =~= lexemes_view(out@));
        out
    }
}

} // verus!
