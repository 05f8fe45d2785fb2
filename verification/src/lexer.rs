//! The tokens of expressions.

use crate::ast::views;
use crate::text::{chars_of, alnum, is_digit, is_space, join2, natural, read_natural, space, text_of,
    Str};
use crate::value::fail;
use vstd::prelude::*;

verus! {

#[derive(Clone, Copy, Debug, PartialEq, Eq, Structural)]
pub enum Sign {
    LeftParen,
    RightParen,
    LeftBracket,
    RightBracket,
    LeftBrace,
    RightBrace,
    Comma,
    Colon,
    Dot,
    Question,
    Assign,
    Plus,
    Minus,
    Star,
    Slash,
    Percent,
    Equal,
    NotEqual,
    Less,
    Greater,
    LessEqual,
    GreaterEqual,
    And,
    Or,
    Not,
}

/// A token of an expression. Keywords are names.
#[derive(Debug, PartialEq)]
pub enum Token {
    Number(i64),
    Text(String),
    Name(String),
    Sign(Sign),
}

pub enum TokenM {
    Number(i64),
    Text(Str),
    Name(Str),
    Sign(Sign),
}

impl View for Token {
    type V = TokenM;

    open spec fn view(&self) -> TokenM {
        match *self {
            Token::Number(n) => TokenM::Number(n),
            Token::Text(s) => TokenM::Text(s@),
            Token::Name(s) => TokenM::Name(s@),
            Token::Sign(sign) => TokenM::Sign(sign),
        }
    }
}

pub open spec fn starts_name(c: char) -> bool {
    ('a' <= c <= 'z') || ('A' <= c <= 'Z') || c == '_' || c > '\u{7f}'
}

pub open spec fn continues_name(c: char) -> bool {
    starts_name(c) || is_digit(c)
}

/// The end of the name that starts before `i`.
pub open spec fn name_end(s: Str, i: int) -> int
    decreases s.len() - i,
{
    if 0 <= i < s.len() && continues_name(s[i]) {
        name_end(s, i + 1)
    } else {
        i
    }
}

pub open spec fn digits_end(s: Str, i: int) -> int
    decreases s.len() - i,
{
    if 0 <= i < s.len() && is_digit(s[i]) {
        digits_end(s, i + 1)
    } else {
        i
    }
}

/// The character that stands behind a backslash, as it is meant.
pub open spec fn escaped(c: char) -> char {
    if c == 'n' {
        '\n'
    } else if c == 't' {
        '\t'
    } else if c == 'r' {
        '\r'
    } else {
        c
    }
}

/// Reads the rest of a text literal from `i` on, behind `done`.
pub open spec fn literal_read(s: Str, i: int, done: Str) -> Result<(Str, int), Str>
    decreases s.len() - i,
{
    if i < 0 || i >= s.len() {
        Err("unterminated text literal"@)
    } else if s[i] == '"' {
        Ok((done, i + 1))
    } else if s[i] == '\\' {
        if i + 1 >= s.len() {
            Err("unterminated text literal"@)
        } else {
            literal_read(s, i + 2, done.push(escaped(s[i + 1])))
        }
    } else {
        literal_read(s, i + 1, done.push(s[i]))
    }
}

/// A sign of two characters.
pub open spec fn double_sign(a: char, b: char) -> Option<Sign> {
    if a == '=' && b == '=' {
        Some(Sign::Equal)
    } else if a == '!' && b == '=' {
        Some(Sign::NotEqual)
    } else if a == '<' && b == '=' {
        Some(Sign::LessEqual)
    } else if a == '>' && b == '=' {
        Some(Sign::GreaterEqual)
    } else if a == '&' && b == '&' {
        Some(Sign::And)
    } else if a == '|' && b == '|' {
        Some(Sign::Or)
    } else {
        None
    }
}

/// A sign of one character.
pub open spec fn single_sign(c: char) -> Option<Sign> {
    match c {
        '(' => Some(Sign::LeftParen),
        ')' => Some(Sign::RightParen),
        '[' => Some(Sign::LeftBracket),
        ']' => Some(Sign::RightBracket),
        '{' => Some(Sign::LeftBrace),
        '}' => Some(Sign::RightBrace),
        ',' => Some(Sign::Comma),
        ':' => Some(Sign::Colon),
        '.' => Some(Sign::Dot),
        '?' => Some(Sign::Question),
        '=' => Some(Sign::Assign),
        '+' => Some(Sign::Plus),
        '-' => Some(Sign::Minus),
        '*' => Some(Sign::Star),
        '/' => Some(Sign::Slash),
        '%' => Some(Sign::Percent),
        '<' => Some(Sign::Less),
        '>' => Some(Sign::Greater),
        '!' => Some(Sign::Not),
        _ => None,
    }
}

/// The token that starts at `i`, and where it ends.
pub open spec fn token_at(s: Str, i: int) -> Result<(TokenM, int), Str> {
    let c = s[i];
    if is_digit(c) {
        let e = digits_end(s, i);
        match natural(s.subrange(i, e), i64::MAX as nat) {
            Some(n) => Ok((TokenM::Number(n as i64), e)),
            None => Err("number literal is out of range"@),
        }
    } else if c == '"' {
        match literal_read(s, i + 1, Seq::empty()) {
            Ok((text, e)) => Ok((TokenM::Text(text), e)),
            Err(error) => Err(error),
        }
    } else if starts_name(c) {
        let e = name_end(s, i);
        Ok((TokenM::Name(s.subrange(i, e)), e))
    } else if i + 1 < s.len() && double_sign(c, s[i + 1]) is Some {
        Ok((TokenM::Sign(double_sign(c, s[i + 1])->0), i + 2))
    } else {
        match single_sign(c) {
            Some(sign) => Ok((TokenM::Sign(sign), i + 1)),
            None => Err("unexpected character: "@ + seq![c]),
        }
    }
}

/// The tokens from `i` on, behind `done`. A number sign ends the text.
pub open spec fn tokens_from(s: Str, i: int, done: Seq<TokenM>) -> Result<Seq<TokenM>, Str>
    decreases s.len() - i,
{
    if i < 0 || i >= s.len() || s[i] == '#' {
        Ok(done)
    } else if is_space(s[i]) {
        tokens_from(s, i + 1, done)
    } else {
        match token_at(s, i) {
            Err(error) => Err(error),
            Ok((token, e)) => if i < e <= s.len() {
                tokens_from(s, e, done.push(token))
            } else {
                Ok(done)
            },
        }
    }
}

pub open spec fn tokens(s: Str) -> Result<Seq<TokenM>, Str> {
    tokens_from(s, 0, Seq::empty())
}

fn name_char(c: char) -> (r: bool)
    ensures
        r == continues_name(c),
{
    alnum(c) || c == '_' || c > '\u{7f}'
}

fn digit(c: char) -> (r: bool)
    ensures
        r == is_digit(c),
{
    '0' <= c && c <= '9'
}

fn find_name_end(v: &Vec<char>, from: usize) -> (r: usize)
    requires
        from <= v@.len(),
    ensures
        r == name_end(v@, from as int),
        from <= r <= v@.len(),
{
    let mut i: usize = from;
    while i < v.len() && name_char(v[i])
        invariant
            from <= i <= v@.len(),
            name_end(v@, from as int) == name_end(v@, i as int),
        decreases v.len() - i,
    {
        i += 1;
    }
    i
}

fn find_digits_end(v: &Vec<char>, from: usize) -> (r: usize)
    requires
        from <= v@.len(),
    ensures
        r == digits_end(v@, from as int),
        from <= r <= v@.len(),
{
    let mut i: usize = from;
    while i < v.len() && digit(v[i])
        invariant
            from <= i <= v@.len(),
            digits_end(v@, from as int) == digits_end(v@, i as int),
        decreases v.len() - i,
    {
        i += 1;
    }
    i
}

spec fn told_literal(r: Result<(String, usize), String>) -> Result<(Str, int), Str> {
    match r {
        Ok(pair) => Ok((pair.0@, pair.1 as int)),
        Err(error) => Err(error@),
    }
}

fn read_literal(v: &Vec<char>, from: usize) -> (r: Result<(String, usize), String>)
    requires
        from <= v@.len(),
    ensures
        told_literal(r) == literal_read(v@, from as int, Seq::empty()),
        match r {
            Ok(pair) => from < pair.1 <= v@.len(),
            Err(_) => true,
        },
{
    let mut out: String = String::new();
    let mut i: usize = from;
    assert(out@ =~= Seq::<char>::empty());
    while i < v.len() && v[i] != '"'
        invariant
            from <= i <= v@.len(),
            literal_read(v@, from as int, Seq::empty()) == literal_read(v@, i as int, out@),
        decreases v.len() - i,
    {
        if v[i] == '\\' {
            if i + 1 >= v.len() {
                return fail("unterminated text literal");
            }
            let c = v[i + 1];
            out.push(
                if c == 'n' {
                    '\n'
                } else if c == 't' {
                    '\t'
                } else if c == 'r' {
                    '\r'
                } else {
                    c
                },
            );
            i += 2;
        } else {
            out.push(v[i]);
            i += 1;
        }
    }
    if i >= v.len() {
        return fail("unterminated text literal");
    }
    Ok((out, i + 1))
}

fn read_double_sign(a: char, b: char) -> (r: Option<Sign>)
    ensures
        r == double_sign(a, b),
{
    if a == '=' && b == '=' {
        Some(Sign::Equal)
    } else if a == '!' && b == '=' {
        Some(Sign::NotEqual)
    } else if a == '<' && b == '=' {
        Some(Sign::LessEqual)
    } else if a == '>' && b == '=' {
        Some(Sign::GreaterEqual)
    } else if a == '&' && b == '&' {
        Some(Sign::And)
    } else if a == '|' && b == '|' {
        Some(Sign::Or)
    } else {
        None
    }
}

fn read_single_sign(c: char) -> (r: Option<Sign>)
    ensures
        r == single_sign(c),
{
    match c {
        '(' => Some(Sign::LeftParen),
        ')' => Some(Sign::RightParen),
        '[' => Some(Sign::LeftBracket),
        ']' => Some(Sign::RightBracket),
        '{' => Some(Sign::LeftBrace),
        '}' => Some(Sign::RightBrace),
        ',' => Some(Sign::Comma),
        ':' => Some(Sign::Colon),
        '.' => Some(Sign::Dot),
        '?' => Some(Sign::Question),
        '=' => Some(Sign::Assign),
        '+' => Some(Sign::Plus),
        '-' => Some(Sign::Minus),
        '*' => Some(Sign::Star),
        '/' => Some(Sign::Slash),
        '%' => Some(Sign::Percent),
        '<' => Some(Sign::Less),
        '>' => Some(Sign::Greater),
        '!' => Some(Sign::Not),
        _ => None,
    }
}

spec fn told_token(r: Result<(Token, usize), String>) -> Result<(TokenM, int), Str> {
    match r {
        Ok(pair) => Ok((pair.0@, pair.1 as int)),
        Err(error) => Err(error@),
    }
}

fn read_token(v: &Vec<char>, i: usize) -> (r: Result<(Token, usize), String>)
    requires
        i < v.len(),
    ensures
        told_token(r) == token_at(v@, i as int),
        match r {
            Ok(pair) => i < pair.1 <= v@.len(),
            Err(_) => true,
        },
{
    let c = v[i];
    if digit(c) {
        let e = find_digits_end(v, i + 1);
        assert(digits_end(v@, i as int) == e);
        let part = chars_of(text_of(v, i, e).as_str());
        return match read_natural(&part, i64::MAX as u64) {
            Some(n) => Ok((Token::Number(n as i64), e)),
            None => fail("number literal is out of range"),
        };
    }
    if c == '"' {
        return match read_literal(v, i + 1) {
            Ok((text, e)) => Ok((Token::Text(text), e)),
            Err(error) => Err(error),
        };
    }
    if name_char(c) {
        let e = find_name_end(v, i + 1);
        assert(name_end(v@, i as int) == e);
        return Ok((Token::Name(text_of(v, i, e)), e));
    }
    if i + 1 < v.len() {
        match read_double_sign(c, v[i + 1]) {
            Some(sign) => {
                return Ok((Token::Sign(sign), i + 2));
            },
            None => {},
        }
    }
    match read_single_sign(c) {
        Some(sign) => Ok((Token::Sign(sign), i + 1)),
        None => {
            let found = text_of(v, i, i + 1);
            assert(found@ =~= seq![c]);
            Err(join2("unexpected character: ", found.as_str()))
        },
    }
}

pub open spec fn told_tokens(r: Result<Vec<Token>, String>) -> Result<Seq<TokenM>, Str> {
    match r {
        Ok(v) => Ok(views(v@)),
        Err(error) => Err(error@),
    }
}

pub fn tokenize(s: &str) -> (r: Result<Vec<Token>, String>)
    ensures
        told_tokens(r) == tokens(s@),
{
    let v = chars_of(s);
    let mut out: Vec<Token> = Vec::new();
    let mut i: usize = 0;
    assert(views(out@) =~= Seq::<TokenM>::empty());
    while i < v.len() && v[i] != '#'
        invariant
            i <= v@.len(),
            v@ == s@,
            tokens(s@) == tokens_from(v@, i as int, views(out@)),
        decreases v.len() - i,
    {
        if space(v[i]) {
            i += 1;
        } else {
            match read_token(&v, i) {
                Err(error) => {
                    return Err(error);
                },
                Ok((token, e)) => {
                    let ghost before = views(out@);
                    out.push(token);
                    assert(views(out@) =~= before.push(token@));
                    i = e;
                },
            }
        }
    }
    Ok(out)
}

} // verus!
