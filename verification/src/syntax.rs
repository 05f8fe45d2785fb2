//! The grammar of expressions.

use crate::ast::{lemma_expr_call, lemma_expr_dict, lemma_expr_list, pair_views, views, BinaryOp,
    CallArg, CallArgM, Expr, ExprM, Literal, LiteralM, UnaryOp};
use crate::lexer::{tokenize, tokens, Sign, Token, TokenM};
use crate::text::{same, Str};
use crate::value::fail;
use vstd::prelude::*;

verus! {

/// How deep expressions may be nested in source text.
pub const MAX_EXPRESSION_DEPTH: usize = 64;

/// What a rule of the grammar reads: an expression and the position behind it.
pub type Read = Result<(ExprM, int), Str>;

pub open spec fn sign_is(toks: Seq<TokenM>, i: int, sign: Sign) -> bool {
    0 <= i < toks.len() && toks[i] == TokenM::Sign(sign)
}

pub open spec fn word_is(toks: Seq<TokenM>, i: int, word: Str) -> bool {
    0 <= i < toks.len() && toks[i] == TokenM::Name(word)
}

pub open spec fn depth_error() -> Str {
    "expression nesting limit exceeded"@
}

pub open spec fn expected(what: Str) -> Str {
    "expected "@ + what
}

/// The number of levels of binary operators, from `or` to multiplication.
pub const LEVELS: usize = 5;

/// The operator of a level at a position.
pub open spec fn operator(toks: Seq<TokenM>, i: int, level: nat) -> Option<BinaryOp> {
    if i < 0 || i >= toks.len() {
        None
    } else {
        match toks[i] {
            TokenM::Sign(sign) => match sign {
                Sign::Or => if level == 0 {
                    Some(BinaryOp::Or)
                } else {
                    None
                },
                Sign::And => if level == 1 {
                    Some(BinaryOp::And)
                } else {
                    None
                },
                Sign::Equal => if level == 2 {
                    Some(BinaryOp::Equal)
                } else {
                    None
                },
                Sign::NotEqual => if level == 2 {
                    Some(BinaryOp::NotEqual)
                } else {
                    None
                },
                Sign::Less => if level == 2 {
                    Some(BinaryOp::Less)
                } else {
                    None
                },
                Sign::Greater => if level == 2 {
                    Some(BinaryOp::Greater)
                } else {
                    None
                },
                Sign::LessEqual => if level == 2 {
                    Some(BinaryOp::LessEqual)
                } else {
                    None
                },
                Sign::GreaterEqual => if level == 2 {
                    Some(BinaryOp::GreaterEqual)
                } else {
                    None
                },
                Sign::Plus => if level == 3 {
                    Some(BinaryOp::Add)
                } else {
                    None
                },
                Sign::Minus => if level == 3 {
                    Some(BinaryOp::Subtract)
                } else {
                    None
                },
                Sign::Star => if level == 4 {
                    Some(BinaryOp::Multiply)
                } else {
                    None
                },
                Sign::Slash => if level == 4 {
                    Some(BinaryOp::Divide)
                } else {
                    None
                },
                Sign::Percent => if level == 4 {
                    Some(BinaryOp::Remainder)
                } else {
                    None
                },
                _ => None,
            },
            TokenM::Name(word) => if level == 0 && word == "or"@ {
                Some(BinaryOp::Or)
            } else if level == 1 && word == "and"@ {
                Some(BinaryOp::And)
            } else {
                None
            },
            _ => None,
        }
    }
}

/// A whole expression: an operand, or a choice between two.
pub open spec fn expression(toks: Seq<TokenM>, i: int, depth: nat) -> Read
    decreases depth, 30nat, 0nat,
{
    if depth == 0 {
        Err(depth_error())
    } else {
        match level(toks, i, 0, (depth - 1) as nat) {
            Err(error) => Err(error),
            Ok((first, j)) => if !word_is(toks, j, "if"@) {
                Ok((first, j))
            } else {
                match level(toks, j + 1, 0, (depth - 1) as nat) {
                    Err(error) => Err(error),
                    Ok((condition, k)) => if !word_is(toks, k, "else"@) {
                        Err(expected("else"@))
                    } else {
                        match expression(toks, k + 1, (depth - 1) as nat) {
                            Err(error) => Err(error),
                            Ok((other, e)) => Ok(
                                (
                                    ExprM::Conditional {
                                        condition: Box::new(condition),
                                        then_branch: Box::new(first),
                                        else_branch: Box::new(other),
                                    },
                                    e,
                                ),
                            ),
                        }
                    },
                }
            },
        }
    }
}

/// Operands joined by the operators of a level, or of a tighter one.
pub open spec fn level(toks: Seq<TokenM>, i: int, rank: nat, depth: nat) -> Read
    decreases depth, (if rank <= 7 { 20 - 2 * rank } else { 5 }) as nat, 0nat,
{
    if rank >= LEVELS {
        unary(toks, i, depth)
    } else if rank == 2 && (word_is(toks, i, "not"@) || sign_is(toks, i, Sign::Not)) {
        if depth == 0 {
            Err(depth_error())
        } else {
            match level(toks, i + 1, 2, (depth - 1) as nat) {
                Err(error) => Err(error),
                Ok((value, e)) => Ok(
                    (ExprM::Unary { op: UnaryOp::Not, value: Box::new(value) }, e),
                ),
            }
        }
    } else {
        match level(toks, i, rank + 1, depth) {
            Err(error) => Err(error),
            Ok((left, j)) => chain(toks, j, rank, depth, left, toks.len() + 1),
        }
    }
}

/// The operators of a level behind a left operand, from left to right.
pub open spec fn chain(
    toks: Seq<TokenM>,
    i: int,
    rank: nat,
    depth: nat,
    left: ExprM,
    steps: nat,
) -> Read
    decreases depth, (if rank <= 7 { 19 - 2 * rank } else { 3 }) as nat, steps,
{
    match operator(toks, i, rank) {
        None => Ok((left, i)),
        Some(op) => if steps == 0 || rank >= LEVELS {
            Ok((left, i))
        } else {
            match level(toks, i + 1, rank + 1, depth) {
                Err(error) => Err(error),
                Ok((right, j)) => chain(
                    toks,
                    j,
                    rank,
                    depth,
                    ExprM::Binary { left: Box::new(left), op, right: Box::new(right) },
                    (steps - 1) as nat,
                ),
            }
        },
    }
}

/// A sign or a word in front of an operand.
pub open spec fn unary(toks: Seq<TokenM>, i: int, depth: nat) -> Read
    decreases depth, 4nat, 0nat,
{
    if sign_is(toks, i, Sign::Minus) {
        if depth == 0 {
            Err(depth_error())
        } else {
            match unary(toks, i + 1, (depth - 1) as nat) {
                Err(error) => Err(error),
                Ok((value, e)) => Ok(
                    (ExprM::Unary { op: UnaryOp::Negate, value: Box::new(value) }, e),
                ),
            }
        }
    } else if word_is(toks, i, "await"@) {
        if depth == 0 {
            Err(depth_error())
        } else {
            match unary(toks, i + 1, (depth - 1) as nat) {
                Err(error) => Err(error),
                Ok((value, e)) => Ok((ExprM::Await(Box::new(value)), e)),
            }
        }
    } else {
        match primary(toks, i, depth) {
            Err(error) => Err(error),
            Ok((base, j)) => suffixes(toks, j, depth, base, toks.len() + 1),
        }
    }
}

/// Calls, indexes, members and propagation behind an operand.
pub open spec fn suffixes(toks: Seq<TokenM>, i: int, depth: nat, base: ExprM, steps: nat) -> Read
    decreases depth, 3nat, steps,
{
    if steps == 0 {
        Ok((base, i))
    } else if sign_is(toks, i, Sign::LeftParen) {
        match arguments(toks, i + 1, depth, Seq::empty(), toks.len() + 1) {
            Err(error) => Err(error),
            Ok((args, e)) => suffixes(
                toks,
                e,
                depth,
                ExprM::Call { callee: Box::new(base), args },
                (steps - 1) as nat,
            ),
        }
    } else if sign_is(toks, i, Sign::LeftBracket) {
        if depth == 0 {
            Err(depth_error())
        } else {
            match expression(toks, i + 1, (depth - 1) as nat) {
                Err(error) => Err(error),
                Ok((index, j)) => if !sign_is(toks, j, Sign::RightBracket) {
                    Err(expected("]"@))
                } else {
                    suffixes(
                        toks,
                        j + 1,
                        depth,
                        ExprM::Index { target: Box::new(base), index: Box::new(index) },
                        (steps - 1) as nat,
                    )
                },
            }
        }
    } else if sign_is(toks, i, Sign::Dot) {
        if 0 <= i + 1 < toks.len() {
            match toks[i + 1] {
                TokenM::Name(member) => suffixes(
                    toks,
                    i + 2,
                    depth,
                    ExprM::Member { target: Box::new(base), member },
                    (steps - 1) as nat,
                ),
                _ => Err(expected("a member name"@)),
            }
        } else {
            Err(expected("a member name"@))
        }
    } else if sign_is(toks, i, Sign::Question) {
        suffixes(toks, i + 1, depth, ExprM::Propagate(Box::new(base)), (steps - 1) as nat)
    } else {
        Ok((base, i))
    }
}

/// The arguments of a call up to the closing bracket, behind `done`.
pub open spec fn arguments(
    toks: Seq<TokenM>,
    i: int,
    depth: nat,
    done: Seq<CallArgM>,
    steps: nat,
) -> Result<(Seq<CallArgM>, int), Str>
    decreases depth, 0nat, steps,
{
    if sign_is(toks, i, Sign::RightParen) {
        Ok((done, i + 1))
    } else if depth == 0 || steps == 0 {
        Err(depth_error())
    } else {
        let named = 0 <= i < toks.len() && toks[i] is Name && sign_is(toks, i + 1, Sign::Assign);
        let start = if named {
            i + 2
        } else {
            i
        };
        let name = if named {
            Some(toks[i]->Name_0)
        } else {
            None
        };
        match expression(toks, start, (depth - 1) as nat) {
            Err(error) => Err(error),
            Ok((value, j)) => {
                let more = done.push(CallArgM { name, value });
                if sign_is(toks, j, Sign::Comma) {
                    arguments(toks, j + 1, depth, more, (steps - 1) as nat)
                } else if sign_is(toks, j, Sign::RightParen) {
                    Ok((more, j + 1))
                } else {
                    Err(expected(")"@))
                }
            },
        }
    }
}

/// The items of a list up to the closing bracket, behind `done`.
pub open spec fn items(
    toks: Seq<TokenM>,
    i: int,
    depth: nat,
    done: Seq<ExprM>,
    steps: nat,
) -> Result<(Seq<ExprM>, int), Str>
    decreases depth, 0nat, steps,
{
    if sign_is(toks, i, Sign::RightBracket) {
        Ok((done, i + 1))
    } else if depth == 0 || steps == 0 {
        Err(depth_error())
    } else {
        match expression(toks, i, (depth - 1) as nat) {
            Err(error) => Err(error),
            Ok((value, j)) => {
                let more = done.push(value);
                if sign_is(toks, j, Sign::Comma) {
                    items(toks, j + 1, depth, more, (steps - 1) as nat)
                } else if sign_is(toks, j, Sign::RightBracket) {
                    Ok((more, j + 1))
                } else {
                    Err(expected("]"@))
                }
            },
        }
    }
}

/// The entries of a map up to the closing brace, behind `done`. A bare name as a key stands for
/// its text.
pub open spec fn entries(
    toks: Seq<TokenM>,
    i: int,
    depth: nat,
    done: Seq<(ExprM, ExprM)>,
    steps: nat,
) -> Result<(Seq<(ExprM, ExprM)>, int), Str>
    decreases depth, 0nat, steps,
{
    if sign_is(toks, i, Sign::RightBrace) {
        Ok((done, i + 1))
    } else if depth == 0 || steps == 0 {
        Err(depth_error())
    } else {
        let bare = 0 <= i < toks.len() && toks[i] is Name && sign_is(toks, i + 1, Sign::Colon);
        let key = if bare {
            Ok((ExprM::Literal(LiteralM::Text(toks[i]->Name_0)), i + 1))
        } else {
            expression(toks, i, (depth - 1) as nat)
        };
        match key {
            Err(error) => Err(error),
            Ok((first, j)) => if !sign_is(toks, j, Sign::Colon) {
                Err(expected(":"@))
            } else {
                match expression(toks, j + 1, (depth - 1) as nat) {
                    Err(error) => Err(error),
                    Ok((value, k)) => {
                        let more = done.push((first, value));
                        if sign_is(toks, k, Sign::Comma) {
                            entries(toks, k + 1, depth, more, (steps - 1) as nat)
                        } else if sign_is(toks, k, Sign::RightBrace) {
                            Ok((more, k + 1))
                        } else {
                            Err(expected("}"@))
                        }
                    },
                }
            },
        }
    }
}

/// A literal, a name, or an expression in brackets.
pub open spec fn primary(toks: Seq<TokenM>, i: int, depth: nat) -> Read
    decreases depth, 2nat, 0nat,
{
    if i < 0 || i >= toks.len() {
        Err(expected("an expression"@))
    } else {
        match toks[i] {
            TokenM::Number(n) => Ok((ExprM::Literal(LiteralM::Number(n)), i + 1)),
            TokenM::Text(s) => Ok((ExprM::Literal(LiteralM::Text(s)), i + 1)),
            TokenM::Name(word) => Ok(
                (
                    if word == "true"@ {
                        ExprM::Literal(LiteralM::Bool(true))
                    } else if word == "false"@ {
                        ExprM::Literal(LiteralM::Bool(false))
                    } else if word == "none"@ {
                        ExprM::Literal(LiteralM::Nil)
                    } else {
                        ExprM::Name(word)
                    },
                    i + 1,
                ),
            ),
            TokenM::Sign(sign) => if sign == Sign::LeftParen {
                if depth == 0 {
                    Err(depth_error())
                } else {
                    match expression(toks, i + 1, (depth - 1) as nat) {
                        Err(error) => Err(error),
                        Ok((value, j)) => if sign_is(toks, j, Sign::RightParen) {
                            Ok((value, j + 1))
                        } else {
                            Err(expected(")"@))
                        },
                    }
                }
            } else if sign == Sign::LeftBracket {
                match items(toks, i + 1, depth, Seq::empty(), toks.len() + 1) {
                    Err(error) => Err(error),
                    Ok((values, e)) => Ok((ExprM::List(values), e)),
                }
            } else if sign == Sign::LeftBrace {
                match entries(toks, i + 1, depth, Seq::empty(), toks.len() + 1) {
                    Err(error) => Err(error),
                    Ok((pairs, e)) => Ok((ExprM::Dict(pairs), e)),
                }
            } else {
                Err(expected("an expression"@))
            },
        }
    }
}

/// The expression that a whole text denotes.
pub open spec fn parsed_expression(source: Str) -> Result<ExprM, Str> {
    match tokens(source) {
        Err(error) => Err(error),
        Ok(toks) => match expression(toks, 0, MAX_EXPRESSION_DEPTH as nat) {
            Err(error) => Err(error),
            Ok((value, e)) => if e == toks.len() {
                Ok(value)
            } else {
                Err("unexpected token after expression"@)
            },
        },
    }
}

// ---------------------------------------------------------------------------
// The parser
// ---------------------------------------------------------------------------

spec fn told_read(r: Result<(Expr, usize), String>) -> Read {
    match r {
        Ok(pair) => Ok((pair.0@, pair.1 as int)),
        Err(error) => Err(error@),
    }
}

spec fn within(r: Result<(Expr, usize), String>, toks: &Vec<Token>) -> bool {
    match r {
        Ok(pair) => pair.1 <= toks@.len(),
        Err(_) => true,
    }
}

fn at_sign(toks: &Vec<Token>, i: usize, sign: Sign) -> (r: bool)
    ensures
        r == sign_is(views(toks@), i as int, sign),
        r ==> i < toks.len(),
{
    if i < toks.len() {
        match &toks[i] {
            Token::Sign(found) => *found == sign,
            _ => false,
        }
    } else {
        false
    }
}

fn at_word(toks: &Vec<Token>, i: usize, word: &str) -> (r: bool)
    ensures
        r == word_is(views(toks@), i as int, word@),
        r ==> i < toks.len(),
{
    if i < toks.len() {
        match &toks[i] {
            Token::Name(found) => same(found.as_str(), word),
            _ => false,
        }
    } else {
        false
    }
}

fn read_operator(toks: &Vec<Token>, i: usize, level: usize) -> (r: Option<BinaryOp>)
    ensures
        r == operator(views(toks@), i as int, level as nat),
        r is Some ==> i < toks.len(),
{
    if i >= toks.len() {
        return None;
    }
    let (op, own): (BinaryOp, usize) = match &toks[i] {
        Token::Sign(sign) => match *sign {
            Sign::Or => (BinaryOp::Or, 0),
            Sign::And => (BinaryOp::And, 1),
            Sign::Equal => (BinaryOp::Equal, 2),
            Sign::NotEqual => (BinaryOp::NotEqual, 2),
            Sign::Less => (BinaryOp::Less, 2),
            Sign::Greater => (BinaryOp::Greater, 2),
            Sign::LessEqual => (BinaryOp::LessEqual, 2),
            Sign::GreaterEqual => (BinaryOp::GreaterEqual, 2),
            Sign::Plus => (BinaryOp::Add, 3),
            Sign::Minus => (BinaryOp::Subtract, 3),
            Sign::Star => (BinaryOp::Multiply, 4),
            Sign::Slash => (BinaryOp::Divide, 4),
            Sign::Percent => (BinaryOp::Remainder, 4),
            _ => {
                return None;
            },
        },
        Token::Name(word) => {
            if same(word.as_str(), "or") {
                if level == 0 {
                    return Some(BinaryOp::Or);
                }
                proof {
                    reveal_strlit("or");
                    reveal_strlit("and");
                    assert("or"@.len() == 2 && "and"@.len() == 3);
                }
                return None;
            }
            if same(word.as_str(), "and") && level == 1 {
                return Some(BinaryOp::And);
            }
            return None;
        },
        _ => {
            return None;
        },
    };
    if own == level {
        Some(op)
    } else {
        None
    }
}

fn parse_level_expression(toks: &Vec<Token>, i: usize, depth: usize) -> (r: Result<
    (Expr, usize),
    String,
>)
    requires
        i <= toks@.len(),
    ensures
        told_read(r) == expression(views(toks@), i as int, depth as nat),
        within(r, toks),
    decreases depth, 30int, 0int,
{
    if depth == 0 {
        return fail("expression nesting limit exceeded");
    }
    let (first, j) = match parse_level(toks, i, 0, depth - 1) {
        Err(error) => {
            return Err(error);
        },
        Ok(pair) => pair,
    };
    if !at_word(toks, j, "if") {
        return Ok((first, j));
    }
    let (condition, k) = match parse_level(toks, j + 1, 0, depth - 1) {
        Err(error) => {
            return Err(error);
        },
        Ok(pair) => pair,
    };
    if !at_word(toks, k, "else") {
        return Err(crate::text::join2("expected ", "else"));
    }
    match parse_level_expression(toks, k + 1, depth - 1) {
        Err(error) => Err(error),
        Ok((other, e)) => Ok(
            (
                Expr::Conditional {
                    condition: Box::new(condition),
                    then_branch: Box::new(first),
                    else_branch: Box::new(other),
                },
                e,
            ),
        ),
    }
}

fn parse_level(toks: &Vec<Token>, i: usize, rank: usize, depth: usize) -> (r: Result<
    (Expr, usize),
    String,
>)
    requires
        i <= toks@.len(),
        rank <= LEVELS,
    ensures
        told_read(r) == level(views(toks@), i as int, rank as nat, depth as nat),
        within(r, toks),
    decreases depth, 20 - 2 * rank, 0int,
{
    if rank >= LEVELS {
        return parse_unary(toks, i, depth);
    }
    if rank == 2 && (at_word(toks, i, "not") || at_sign(toks, i, Sign::Not)) {
        if depth == 0 {
            return fail("expression nesting limit exceeded");
        }
        return match parse_level(toks, i + 1, 2, depth - 1) {
            Err(error) => Err(error),
            Ok((value, e)) => Ok((Expr::Unary { op: UnaryOp::Not, value: Box::new(value) }, e)),
        };
    }
    let (first, start) = match parse_level(toks, i, rank + 1, depth) {
        Err(error) => {
            return Err(error);
        },
        Ok(pair) => pair,
    };
    let mut left: Expr = first;
    let mut j: usize = start;
    let mut steps: u128 = toks.len() as u128 + 1;
    let ghost goal = level(views(toks@), i as int, rank as nat, depth as nat);
    loop
        invariant
            j <= toks@.len(),
                rank < LEVELS,
            goal == chain(
                views(toks@),
                j as int,
                rank as nat,
                depth as nat,
                left@,
                steps as nat,
            ),
            goal == level(views(toks@), i as int, rank as nat, depth as nat),
        decreases steps,
    {
        let op = match read_operator(toks, j, rank) {
            None => {
                return Ok((left, j));
            },
            Some(op) => op,
        };
        if steps == 0 {
            return Ok((left, j));
        }
        let (right, e) = match parse_level(toks, j + 1, rank + 1, depth) {
            Err(error) => {
                return Err(error);
            },
            Ok(pair) => pair,
        };
        left = Expr::Binary { left: Box::new(left), op, right: Box::new(right) };
        j = e;
        steps -= 1;
    }
}

fn parse_unary(toks: &Vec<Token>, i: usize, depth: usize) -> (r: Result<(Expr, usize), String>)
    requires
        i <= toks@.len(),
    ensures
        told_read(r) == unary(views(toks@), i as int, depth as nat),
        within(r, toks),
    decreases depth, 4int, 0int,
{
    if at_sign(toks, i, Sign::Minus) {
        if depth == 0 {
            return fail("expression nesting limit exceeded");
        }
        return match parse_unary(toks, i + 1, depth - 1) {
            Err(error) => Err(error),
            Ok((value, e)) => Ok((Expr::Unary { op: UnaryOp::Negate, value: Box::new(value) }, e)),
        };
    }
    if at_word(toks, i, "await") {
        if depth == 0 {
            return fail("expression nesting limit exceeded");
        }
        return match parse_unary(toks, i + 1, depth - 1) {
            Err(error) => Err(error),
            Ok((value, e)) => Ok((Expr::Await(Box::new(value)), e)),
        };
    }
    match parse_primary(toks, i, depth) {
        Err(error) => Err(error),
        Ok((base, j)) => parse_suffixes(toks, j, depth, base),
    }
}

fn parse_suffixes(toks: &Vec<Token>, i: usize, depth: usize, first: Expr) -> (r: Result<
    (Expr, usize),
    String,
>)
    requires
        i <= toks@.len(),
    ensures
        told_read(r) == suffixes(
            views(toks@),
            i as int,
            depth as nat,
            first@,
            toks@.len() + 1,
        ),
        within(r, toks),
    decreases depth, 3int, 0int,
{
    let mut base: Expr = first;
    let mut j: usize = i;
    let mut steps: u128 = toks.len() as u128 + 1;
    let ghost goal = suffixes(views(toks@), i as int, depth as nat, first@, toks@.len() + 1);
    loop
        invariant
            j <= toks@.len(),
                goal == suffixes(views(toks@), j as int, depth as nat, base@, steps as nat),
            goal == suffixes(views(toks@), i as int, depth as nat, first@, toks@.len() + 1),
        decreases steps,
    {
        if steps == 0 {
            return Ok((base, j));
        }
        if at_sign(toks, j, Sign::LeftParen) {
            match parse_arguments(toks, j + 1, depth) {
                Err(error) => {
                    return Err(error);
                },
                Ok((args, e)) => {
                    let call = Expr::Call { callee: Box::new(base), args };
                    proof {
                        lemma_expr_call(&call);
                    }
                    base = call;
                    j = e;
                },
            }
        } else if at_sign(toks, j, Sign::LeftBracket) {
            if depth == 0 {
                return fail("expression nesting limit exceeded");
            }
            match parse_level_expression(toks, j + 1, depth - 1) {
                Err(error) => {
                    return Err(error);
                },
                Ok((index, e)) => {
                    if !at_sign(toks, e, Sign::RightBracket) {
                        return Err(crate::text::join2("expected ", "]"));
                    }
                    base = Expr::Index { target: Box::new(base), index: Box::new(index) };
                    j = e + 1;
                },
            }
        } else if at_sign(toks, j, Sign::Dot) {
            if j + 1 >= toks.len() {
                return Err(crate::text::join2("expected ", "a member name"));
            }
            assert(views(toks@)[j + 1] == toks@[j + 1]@);
            match &toks[j + 1] {
                Token::Name(member) => {
                    base = Expr::Member { target: Box::new(base), member: member.clone() };
                    j = j + 2;
                },
                _ => {
                    return Err(crate::text::join2("expected ", "a member name"));
                },
            }
        } else if at_sign(toks, j, Sign::Question) {
            base = Expr::Propagate(Box::new(base));
            j = j + 1;
        } else {
            return Ok((base, j));
        }
        steps -= 1;
    }
}

spec fn told_args(r: Result<(Vec<CallArg>, usize), String>) -> Result<(Seq<CallArgM>, int), Str> {
    match r {
        Ok(pair) => Ok((views(pair.0@), pair.1 as int)),
        Err(error) => Err(error@),
    }
}

fn name_at(toks: &Vec<Token>, i: usize) -> (r: Option<String>)
    ensures
        match r {
            Some(s) => i < toks.len() && views(toks@)[i as int] == TokenM::Name(s@),
            None => !(i < toks@.len() && views(toks@)[i as int] is Name),
        },
{
    if i < toks.len() {
        match &toks[i] {
            Token::Name(s) => Some(s.clone()),
            _ => None,
        }
    } else {
        None
    }
}

fn parse_arguments(toks: &Vec<Token>, i: usize, depth: usize) -> (r: Result<
    (Vec<CallArg>, usize),
    String,
>)
    requires
        i <= toks@.len(),
    ensures
        told_args(r) == arguments(
            views(toks@),
            i as int,
            depth as nat,
            Seq::empty(),
            toks@.len() + 1,
        ),
        match r {
            Ok(pair) => pair.1 <= toks@.len(),
            Err(_) => true,
        },
    decreases depth, 0int, 0int,
{
    let mut done: Vec<CallArg> = Vec::new();
    let mut j: usize = i;
    let mut steps: u128 = toks.len() as u128 + 1;
    assert(views(done@) =~= Seq::<CallArgM>::empty());
    loop
        invariant
            j <= toks@.len(),
                arguments(views(toks@), i as int, depth as nat, Seq::empty(), toks@.len() + 1)
                == arguments(views(toks@), j as int, depth as nat, views(done@), steps as nat),
        decreases steps,
    {
        if at_sign(toks, j, Sign::RightParen) {
            return Ok((done, j + 1));
        }
        if depth == 0 || steps == 0 {
            return fail("expression nesting limit exceeded");
        }
        let mut name: Option<String> = None;
        let mut start: usize = j;
        if let Some(word) = name_at(toks, j) {
            if at_sign(toks, j + 1, Sign::Assign) {
                name = Some(word);
                start = j + 2;
            }
        }
        let (value, e) = match parse_level_expression(toks, start, depth - 1) {
            Err(error) => {
                return Err(error);
            },
            Ok(pair) => pair,
        };
        let ghost before = views(done@);
        let arg = CallArg { name, value };
        done.push(arg);
        assert(views(done@) =~= before.push(arg@));
        if at_sign(toks, e, Sign::Comma) {
            j = e + 1;
            steps -= 1;
        } else if at_sign(toks, e, Sign::RightParen) {
            return Ok((done, e + 1));
        } else {
            return Err(crate::text::join2("expected ", ")"));
        }
    }
}

spec fn told_items(r: Result<(Vec<Expr>, usize), String>) -> Result<(Seq<ExprM>, int), Str> {
    match r {
        Ok(pair) => Ok((views(pair.0@), pair.1 as int)),
        Err(error) => Err(error@),
    }
}

fn parse_items(toks: &Vec<Token>, i: usize, depth: usize) -> (r: Result<
    (Vec<Expr>, usize),
    String,
>)
    requires
        i <= toks@.len(),
    ensures
        told_items(r) == items(
            views(toks@),
            i as int,
            depth as nat,
            Seq::empty(),
            toks@.len() + 1,
        ),
        match r {
            Ok(pair) => pair.1 <= toks@.len(),
            Err(_) => true,
        },
    decreases depth, 0int, 0int,
{
    let mut done: Vec<Expr> = Vec::new();
    let mut j: usize = i;
    let mut steps: u128 = toks.len() as u128 + 1;
    assert(views(done@) =~= Seq::<ExprM>::empty());
    loop
        invariant
            j <= toks@.len(),
                items(views(toks@), i as int, depth as nat, Seq::empty(), toks@.len() + 1) == items(
                views(toks@),
                j as int,
                depth as nat,
                views(done@),
                steps as nat,
            ),
        decreases steps,
    {
        if at_sign(toks, j, Sign::RightBracket) {
            return Ok((done, j + 1));
        }
        if depth == 0 || steps == 0 {
            return fail("expression nesting limit exceeded");
        }
        let (value, e) = match parse_level_expression(toks, j, depth - 1) {
            Err(error) => {
                return Err(error);
            },
            Ok(pair) => pair,
        };
        let ghost before = views(done@);
        done.push(value);
        assert(views(done@) =~= before.push(value@));
        if at_sign(toks, e, Sign::Comma) {
            j = e + 1;
            steps -= 1;
        } else if at_sign(toks, e, Sign::RightBracket) {
            return Ok((done, e + 1));
        } else {
            return Err(crate::text::join2("expected ", "]"));
        }
    }
}

spec fn told_entries(r: Result<(Vec<(Expr, Expr)>, usize), String>) -> Result<
    (Seq<(ExprM, ExprM)>, int),
    Str,
> {
    match r {
        Ok(pair) => Ok((pair_views(pair.0@), pair.1 as int)),
        Err(error) => Err(error@),
    }
}

fn parse_entries(toks: &Vec<Token>, i: usize, depth: usize) -> (r: Result<
    (Vec<(Expr, Expr)>, usize),
    String,
>)
    requires
        i <= toks@.len(),
    ensures
        told_entries(r) == entries(
            views(toks@),
            i as int,
            depth as nat,
            Seq::empty(),
            toks@.len() + 1,
        ),
        match r {
            Ok(pair) => pair.1 <= toks@.len(),
            Err(_) => true,
        },
    decreases depth, 0int, 0int,
{
    let mut done: Vec<(Expr, Expr)> = Vec::new();
    let mut j: usize = i;
    let mut steps: u128 = toks.len() as u128 + 1;
    assert(pair_views(done@) =~= Seq::<(ExprM, ExprM)>::empty());
    loop
        invariant
            j <= toks@.len(),
                entries(views(toks@), i as int, depth as nat, Seq::empty(), toks@.len() + 1)
                == entries(views(toks@), j as int, depth as nat, pair_views(done@), steps as nat),
        decreases steps,
    {
        if at_sign(toks, j, Sign::RightBrace) {
            return Ok((done, j + 1));
        }
        if depth == 0 || steps == 0 {
            return fail("expression nesting limit exceeded");
        }
        let bare = match name_at(toks, j) {
            Some(word) => if at_sign(toks, j + 1, Sign::Colon) {
                Some(word)
            } else {
                None
            },
            None => None,
        };
        let (first, k) = match bare {
            Some(word) => (Expr::Literal(Literal::Text(word)), j + 1),
            None => match parse_level_expression(toks, j, depth - 1) {
                Err(error) => {
                    return Err(error);
                },
                Ok(pair) => pair,
            },
        };
        if !at_sign(toks, k, Sign::Colon) {
            return Err(crate::text::join2("expected ", ":"));
        }
        let (value, e) = match parse_level_expression(toks, k + 1, depth - 1) {
            Err(error) => {
                return Err(error);
            },
            Ok(pair) => pair,
        };
        let ghost before = pair_views(done@);
        done.push((first, value));
        assert(pair_views(done@) =~= before.push((first@, value@)));
        if at_sign(toks, e, Sign::Comma) {
            j = e + 1;
            steps -= 1;
        } else if at_sign(toks, e, Sign::RightBrace) {
            return Ok((done, e + 1));
        } else {
            return Err(crate::text::join2("expected ", "}"));
        }
    }
}

fn parse_primary(toks: &Vec<Token>, i: usize, depth: usize) -> (r: Result<(Expr, usize), String>)
    requires
        i <= toks@.len(),
    ensures
        told_read(r) == primary(views(toks@), i as int, depth as nat),
        within(r, toks),
    decreases depth, 2int, 0int,
{
    if i >= toks.len() {
        return Err(crate::text::join2("expected ", "an expression"));
    }
    assert(views(toks@)[i as int] == toks@[i as int]@);
    match &toks[i] {
        Token::Number(n) => Ok((Expr::Literal(Literal::Number(*n)), i + 1)),
        Token::Text(s) => Ok((Expr::Literal(Literal::Text(s.clone())), i + 1)),
        Token::Name(word) => {
            let value = if same(word.as_str(), "true") {
                Expr::Literal(Literal::Bool(true))
            } else if same(word.as_str(), "false") {
                Expr::Literal(Literal::Bool(false))
            } else if same(word.as_str(), "none") {
                Expr::Literal(Literal::Nil)
            } else {
                Expr::Name(word.clone())
            };
            Ok((value, i + 1))
        },
        Token::Sign(sign) => {
            if *sign == Sign::LeftParen {
                if depth == 0 {
                    return fail("expression nesting limit exceeded");
                }
                match parse_level_expression(toks, i + 1, depth - 1) {
                    Err(error) => Err(error),
                    Ok((value, j)) => {
                        if at_sign(toks, j, Sign::RightParen) {
                            Ok((value, j + 1))
                        } else {
                            Err(crate::text::join2("expected ", ")"))
                        }
                    },
                }
            } else if *sign == Sign::LeftBracket {
                match parse_items(toks, i + 1, depth) {
                    Err(error) => Err(error),
                    Ok((values, e)) => {
                        let list = Expr::List(values);
                        proof {
                            lemma_expr_list(&list);
                        }
                        Ok((list, e))
                    },
                }
            } else if *sign == Sign::LeftBrace {
                match parse_entries(toks, i + 1, depth) {
                    Err(error) => Err(error),
                    Ok((pairs, e)) => {
                        let map = Expr::Dict(pairs);
                        proof {
                            lemma_expr_dict(&map);
                        }
                        Ok((map, e))
                    },
                }
            } else {
                Err(crate::text::join2("expected ", "an expression"))
            }
        },
    }
}

pub open spec fn told_expr(r: Result<Expr, String>) -> Result<ExprM, Str> {
    match r {
        Ok(e) => Ok(e@),
        Err(error) => Err(error@),
    }
}

/// Parses an expression.
pub fn parse_expression(source: &str) -> (r: Result<Expr, String>)
    ensures
        told_expr(r) == parsed_expression(source@),
{
    let toks = match tokenize(source) {
        Err(error) => {
            return Err(error);
        },
        Ok(toks) => toks,
    };
    match parse_level_expression(&toks, 0, MAX_EXPRESSION_DEPTH) {
        Err(error) => Err(error),
        Ok((value, e)) => if e == toks.len() {
            Ok(value)
        } else {
            fail("unexpected token after expression")
        },
    }
}

} // verus!
