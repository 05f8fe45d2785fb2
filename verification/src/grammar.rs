//! What source text means: how it is divided into tokens, and how tokens make up expressions.

use crate::ast::{BinaryOp, CallArgM, ExprM, LiteralM, UnaryOp};
use crate::lexer::{continues_name, digits_end, double_sign, literal_read, name_end, single_sign,
    starts_name, token_at, tokens, tokens_from, Sign, TokenM};
use crate::syntax::{arguments, chain, entries, expression, items, level, operator,
    parsed_expression, primary, sign_is, suffixes, unary, word_is};
use crate::text::{digits, is_digit, is_space, Str};
use vstd::prelude::*;

verus! {

// ---------------------------------------------------------------------------
// Tokens
// ---------------------------------------------------------------------------

/// Each sign of one character is the token of its own.
pub proof fn law_signs_of_one_character()
    ensures
        single_sign('(') == Some(Sign::LeftParen),
        single_sign(')') == Some(Sign::RightParen),
        single_sign('[') == Some(Sign::LeftBracket),
        single_sign(']') == Some(Sign::RightBracket),
        single_sign('{') == Some(Sign::LeftBrace),
        single_sign('}') == Some(Sign::RightBrace),
        single_sign(',') == Some(Sign::Comma),
        single_sign(':') == Some(Sign::Colon),
        single_sign('.') == Some(Sign::Dot),
        single_sign('?') == Some(Sign::Question),
        single_sign('=') == Some(Sign::Assign),
        single_sign('+') == Some(Sign::Plus),
        single_sign('-') == Some(Sign::Minus),
        single_sign('*') == Some(Sign::Star),
        single_sign('/') == Some(Sign::Slash),
        single_sign('%') == Some(Sign::Percent),
        single_sign('<') == Some(Sign::Less),
        single_sign('>') == Some(Sign::Greater),
        single_sign('!') == Some(Sign::Not),
{
}

/// Each sign of two characters is one token, and no other pair of characters is.
pub proof fn law_signs_of_two_characters(a: char, b: char)
    ensures
        double_sign('=', '=') == Some(Sign::Equal),
        double_sign('!', '=') == Some(Sign::NotEqual),
        double_sign('<', '=') == Some(Sign::LessEqual),
        double_sign('>', '=') == Some(Sign::GreaterEqual),
        double_sign('&', '&') == Some(Sign::And),
        double_sign('|', '|') == Some(Sign::Or),
        double_sign(a, b) is Some ==> (b == '=' && (a == '=' || a == '!' || a == '<' || a == '>'))
            || (a == b && (a == '&' || a == '|')),
{
}

proof fn lemma_tokens_behind(s: Str, i: int, done: Seq<TokenM>)
    ensures
        tokens_from(s, i, done) is Ok <==> tokens_from(s, i, Seq::empty()) is Ok,
        tokens_from(s, i, done) is Ok ==> tokens_from(s, i, done)->Ok_0 == done + tokens_from(
            s,
            i,
            Seq::empty(),
        )->Ok_0,
    decreases s.len() - i,
{
    let none = Seq::<TokenM>::empty();
    if i < 0 || i >= s.len() || s[i] == '#' {
        assert(done + none =~= done);
    } else if is_space(s[i]) {
        lemma_tokens_behind(s, i + 1, done);
    } else if let Ok((token, e)) = token_at(s, i) {
        if i < e <= s.len() {
            lemma_tokens_behind(s, e, done.push(token));
            lemma_tokens_behind(s, e, none.push(token));
            if tokens_from(s, e, none) is Ok {
                let rest = tokens_from(s, e, none)->Ok_0;
                assert(done.push(token) + rest =~= done + (none.push(token) + rest));
            }
        } else {
            assert(done + none =~= done);
        }
    }
}

/// The tokens of a text are its first token and those of what stands behind it; white space stands
/// for nothing, and a number sign ends the text.
pub proof fn law_tokens_follow_each_other(s: Str, i: int)
    requires
        0 <= i < s.len(),
    ensures
        s[i] == '#' ==> tokens_from(s, i, Seq::empty()) == Ok::<Seq<TokenM>, Str>(Seq::empty()),
        is_space(s[i]) ==> tokens_from(s, i, Seq::empty()) == tokens_from(s, i + 1, Seq::empty()),
        s[i] != '#' && !is_space(s[i]) && token_at(s, i) is Err ==> tokens_from(
            s,
            i,
            Seq::empty(),
        ) is Err,
        s[i] != '#' && !is_space(s[i]) && token_at(s, i) is Ok && i < (token_at(s, i)->Ok_0).1
            <= s.len() && tokens_from(s, (token_at(s, i)->Ok_0).1, Seq::empty()) is Ok
            ==> tokens_from(s, i, Seq::empty()) == Ok::<Seq<TokenM>, Str>(
            seq![(token_at(s, i)->Ok_0).0] + tokens_from(
                s,
                (token_at(s, i)->Ok_0).1,
                Seq::empty(),
            )->Ok_0,
        ),
{
    if s[i] != '#' && !is_space(s[i]) {
        if let Ok((token, e)) = token_at(s, i) {
            let one = Seq::<TokenM>::empty().push(token);
            lemma_tokens_behind(s, e, one);
            assert(one =~= seq![token]);
        }
    }
}

proof fn lemma_digits_end(s: Str, i: int, e: int)
    requires
        0 <= i <= e <= s.len(),
        forall|k: int| i <= k < e ==> is_digit(#[trigger] s[k]),
        e < s.len() ==> !is_digit(s[e]),
    ensures
        digits_end(s, i) == e,
    decreases e - i,
{
    if i < e {
        lemma_digits_end(s, i + 1, e);
    }
}

/// A number in digits is one token with that number, up to the greatest number of 64 bits.
pub proof fn law_numbers_are_read(n: nat)
    ensures
        n <= 0x7fff_ffff_ffff_ffff ==> tokens(digits(n)) == Ok::<Seq<TokenM>, Str>(
            seq![TokenM::Number(n as i64)],
        ),
        n > 0x7fff_ffff_ffff_ffff ==> tokens(digits(n)) is Err,
{
    let s = digits(n);
    crate::wording::law_digits_denote_their_number(n);
    lemma_digits_end(s, 0, s.len() as int);
    assert(s.subrange(0, s.len() as int) =~= s);
    assert(is_digit(s[0]));
    assert(tokens_from(s, s.len() as int, Seq::<TokenM>::empty().push(TokenM::Number(n as i64)))
        == Ok::<Seq<TokenM>, Str>(Seq::<TokenM>::empty().push(TokenM::Number(n as i64))));
    assert(Seq::<TokenM>::empty().push(TokenM::Number(n as i64)) =~= seq![
        TokenM::Number(n as i64),
    ]);
}

proof fn lemma_name_end(s: Str, i: int, e: int)
    requires
        0 <= i <= e <= s.len(),
        forall|k: int| i <= k < e ==> continues_name(#[trigger] s[k]),
        e < s.len() ==> !continues_name(s[e]),
    ensures
        name_end(s, i) == e,
    decreases e - i,
{
    if i < e {
        lemma_name_end(s, i + 1, e);
    }
}

/// A name is one token: it begins with a letter or an underscore and goes on with letters, digits
/// and underscores.
pub proof fn law_names_are_read(s: Str)
    requires
        s.len() > 0,
        starts_name(s[0]),
        forall|k: int| 0 <= k < s.len() ==> continues_name(#[trigger] s[k]),
        !is_space(s[0]),
    ensures
        tokens(s) == Ok::<Seq<TokenM>, Str>(seq![TokenM::Name(s)]),
{
    lemma_name_end(s, 0, s.len() as int);
    assert(s.subrange(0, s.len() as int) =~= s);
    let one = Seq::<TokenM>::empty().push(TokenM::Name(s));
    assert(tokens_from(s, s.len() as int, one) == Ok::<Seq<TokenM>, Str>(one));
    assert(one =~= seq![TokenM::Name(s)]);
}

/// A character as it is written inside quotation marks.
pub open spec fn written(c: char) -> Str {
    if c == '\n' {
        seq!['\\', 'n']
    } else if c == '\t' {
        seq!['\\', 't']
    } else if c == '\r' {
        seq!['\\', 'r']
    } else if c == '"' || c == '\\' {
        seq!['\\', c]
    } else {
        seq![c]
    }
}

/// A text as it is written inside quotation marks.
pub open spec fn written_text(s: Str) -> Str
    decreases s.len(),
{
    if s.len() == 0 {
        Seq::empty()
    } else {
        written(s[0]) + written_text(s.skip(1))
    }
}

proof fn lemma_literal(front: Str, s: Str, behind: Str, done: Str)
    ensures
        literal_read(
            front + written_text(s) + seq!['"'] + behind,
            front.len() as int,
            done,
        ) == Ok::<(Str, int), Str>(
            (done + s, (front.len() + written_text(s).len() + 1) as int),
        ),
    decreases s.len(),
{
    let whole = front + written_text(s) + seq!['"'] + behind;
    let i = front.len() as int;
    if s.len() == 0 {
        assert(whole[i] == '"');
        assert(done + s =~= done);
    } else {
        let c = s[0];
        let rest = s.skip(1);
        let next = front + written(c);
        assert(whole =~= next + written_text(rest) + seq!['"'] + behind);
        lemma_literal(next, rest, behind, done.push(c));
        assert(done.push(c) + rest =~= done + s);
        assert(whole[i] == written(c)[0]);
        if written(c).len() == 2 {
            assert(whole[i + 1] == written(c)[1]);
        }
    }
}

/// A text in quotation marks is one token with that text: a quotation mark and a backslash are
/// written behind a backslash, and so are line feeds, tabs and carriage returns by their letters.
pub proof fn law_texts_are_read(s: Str)
    ensures
        tokens(seq!['"'] + written_text(s) + seq!['"']) == Ok::<Seq<TokenM>, Str>(
            seq![TokenM::Text(s)],
        ),
{
    let whole = seq!['"'] + written_text(s) + seq!['"'];
    lemma_literal(seq!['"'], s, Seq::empty(), Seq::empty());
    assert(seq!['"'] + written_text(s) + seq!['"'] + Seq::<char>::empty() =~= whole);
    assert(Seq::<char>::empty() + s =~= s);
    assert(whole[0] == '"');
    let one = Seq::<TokenM>::empty().push(TokenM::Text(s));
    assert(tokens_from(whole, whole.len() as int, one) == Ok::<Seq<TokenM>, Str>(one));
    assert(one =~= seq![TokenM::Text(s)]);
}

// ---------------------------------------------------------------------------
// Operands
// ---------------------------------------------------------------------------

/// Whether a word has a meaning of its own in expressions.
pub open spec fn is_reserved(word: Str) -> bool {
    ||| word == "true"@
    ||| word == "false"@
    ||| word == "none"@
    ||| word == "not"@
    ||| word == "await"@
    ||| word == "if"@
    ||| word == "else"@
    ||| word == "or"@
    ||| word == "and"@
}

/// Whether a token is an operand: a number, a text or a name.
pub open spec fn is_operand(token: TokenM) -> bool {
    match token {
        TokenM::Number(_) => true,
        TokenM::Text(_) => true,
        TokenM::Name(word) => !is_reserved(word),
        TokenM::Sign(_) => false,
    }
}

/// What an operand denotes.
pub open spec fn operand(token: TokenM) -> ExprM {
    match token {
        TokenM::Number(n) => ExprM::Literal(LiteralM::Number(n)),
        TokenM::Text(s) => ExprM::Literal(LiteralM::Text(s)),
        TokenM::Name(word) => ExprM::Name(word),
        TokenM::Sign(_) => ExprM::Literal(LiteralM::Nil),
    }
}

/// Whether nothing at a position goes on with the operand before it.
pub open spec fn ends_operand(toks: Seq<TokenM>, i: int) -> bool {
    !(sign_is(toks, i, Sign::LeftParen) || sign_is(toks, i, Sign::LeftBracket) || sign_is(
        toks,
        i,
        Sign::Dot,
    ) || sign_is(toks, i, Sign::Question))
}

proof fn lemma_operand(toks: Seq<TokenM>, i: int, depth: nat)
    requires
        0 <= i < toks.len(),
        is_operand(toks[i]),
        ends_operand(toks, i + 1),
    ensures
        unary(toks, i, depth) == Ok::<(ExprM, int), Str>((operand(toks[i]), i + 1)),
{
    assert(suffixes(toks, i + 1, depth, operand(toks[i]), toks.len() + 1) == Ok::<
        (ExprM, int),
        Str,
    >((operand(toks[i]), i + 1)));
    assert(!sign_is(toks, i, Sign::Minus) && !word_is(toks, i, "await"@));
    assert(primary(toks, i, depth) == Ok::<(ExprM, int), Str>((operand(toks[i]), i + 1)));
}

/// The rank of an operator: the greater it is, the tighter the operator binds.
pub open spec fn rank_of(op: BinaryOp) -> nat {
    match op {
        BinaryOp::Or => 0,
        BinaryOp::And => 1,
        BinaryOp::Equal => 2,
        BinaryOp::NotEqual => 2,
        BinaryOp::Less => 2,
        BinaryOp::Greater => 2,
        BinaryOp::LessEqual => 2,
        BinaryOp::GreaterEqual => 2,
        BinaryOp::Add => 3,
        BinaryOp::Subtract => 3,
        BinaryOp::Multiply => 4,
        BinaryOp::Divide => 4,
        BinaryOp::Remainder => 4,
    }
}

/// The sign of an operator.
pub open spec fn sign_of(op: BinaryOp) -> Sign {
    match op {
        BinaryOp::Or => Sign::Or,
        BinaryOp::And => Sign::And,
        BinaryOp::Equal => Sign::Equal,
        BinaryOp::NotEqual => Sign::NotEqual,
        BinaryOp::Less => Sign::Less,
        BinaryOp::Greater => Sign::Greater,
        BinaryOp::LessEqual => Sign::LessEqual,
        BinaryOp::GreaterEqual => Sign::GreaterEqual,
        BinaryOp::Add => Sign::Plus,
        BinaryOp::Subtract => Sign::Minus,
        BinaryOp::Multiply => Sign::Star,
        BinaryOp::Divide => Sign::Slash,
        BinaryOp::Remainder => Sign::Percent,
    }
}

proof fn lemma_operator(toks: Seq<TokenM>, i: int, op: BinaryOp, rank: nat)
    requires
        sign_is(toks, i, sign_of(op)),
    ensures
        operator(toks, i, rank) == (if rank == rank_of(op) { Some(op) } else { None }),
        ends_operand(toks, i),
        !word_is(toks, i, "if"@),
{
}

/// The words `and` and `or` are the signs of the same operators.
pub proof fn law_words_stand_for_operators(toks: Seq<TokenM>, i: int, rank: nat)
    ensures
        word_is(toks, i, "or"@) ==> operator(toks, i, rank) == (if rank == 0 {
            Some(BinaryOp::Or)
        } else {
            None
        }),
        word_is(toks, i, "and"@) ==> operator(toks, i, rank) == (if rank == 1 {
            Some(BinaryOp::And)
        } else {
            None
        }),
{
    reveal_strlit("or");
    reveal_strlit("and");
    assert("or"@.len() == 2 && "and"@.len() == 3);
}

/// Whether a word or a sign negates what stands behind it.
spec fn negates(toks: Seq<TokenM>, i: int) -> bool {
    word_is(toks, i, "not"@) || sign_is(toks, i, Sign::Not)
}

proof fn lemma_up(toks: Seq<TokenM>, i: int, low: nat, high: nat, depth: nat, e: ExprM, j: int)
    requires
        low <= high <= 5,
        level(toks, i, high, depth) == Ok::<(ExprM, int), Str>((e, j)),
        !negates(toks, i),
        forall|r: nat| low <= r < high ==> #[trigger] operator(toks, j, r) is None,
    ensures
        level(toks, i, low, depth) == Ok::<(ExprM, int), Str>((e, j)),
    decreases high - low,
{
    if low < high {
        lemma_up(toks, i, low + 1, high, depth, e, j);
        assert(operator(toks, j, low) is None);
        assert(chain(toks, j, low, depth, e, toks.len() + 1) == Ok::<(ExprM, int), Str>((e, j)));
    }
}

proof fn lemma_operand_level(toks: Seq<TokenM>, i: int, rank: nat, depth: nat)
    requires
        0 <= i < toks.len(),
        is_operand(toks[i]),
        ends_operand(toks, i + 1),
        rank <= 5,
        forall|r: nat| rank <= r < 5 ==> #[trigger] operator(toks, i + 1, r) is None,
    ensures
        level(toks, i, rank, depth) == Ok::<(ExprM, int), Str>((operand(toks[i]), i + 1)),
        !negates(toks, i),
{
    lemma_operand(toks, i, depth);
    assert(level(toks, i, 5, depth) == unary(toks, i, depth));
    lemma_up(toks, i, rank, 5, depth, operand(toks[i]), i + 1);
}

/// A pair of operands with an operator between them.
pub open spec fn joined(left: ExprM, op: BinaryOp, right: ExprM) -> ExprM {
    ExprM::Binary { left: Box::new(left), op, right: Box::new(right) }
}

proof fn lemma_none_at_end(toks: Seq<TokenM>, r: nat)
    ensures
        operator(toks, toks.len() as int, r) is None,
        ends_operand(toks, toks.len() as int),
        !word_is(toks, toks.len() as int, "if"@),
{
}

/// Two operands with an operator between them are joined by it, the first on its left.
pub proof fn law_operators_join_operands(a: TokenM, op: BinaryOp, b: TokenM, depth: nat)
    requires
        is_operand(a),
        is_operand(b),
        depth > 0,
    ensures
        expression(seq![a, TokenM::Sign(sign_of(op)), b], 0, depth) == Ok::<(ExprM, int), Str>(
            (joined(operand(a), op, operand(b)), 3),
        ),
{
    let toks = seq![a, TokenM::Sign(sign_of(op)), b];
    lemma_joined(toks, 0, op, rank_of(op), 0, (depth - 1) as nat);
    lemma_none_at_end(toks, 0);
}

/// The expression of two operands and an operator at a position, up to a rank.
proof fn lemma_joined(
    toks: Seq<TokenM>,
    i: int,
    op: BinaryOp,
    rank: nat,
    low: nat,
    depth: nat,
)
    requires
        rank == rank_of(op),
        low <= rank,
        0 <= i,
        i + 2 < toks.len(),
        is_operand(toks[i]),
        sign_is(toks, i + 1, sign_of(op)),
        is_operand(toks[i + 2]),
        ends_operand(toks, i + 3),
        forall|r: nat| low <= r < 5 ==> #[trigger] operator(toks, i + 3, r) is None,
    ensures
        level(toks, i, low, depth) == Ok::<(ExprM, int), Str>(
            (joined(operand(toks[i]), op, operand(toks[i + 2])), i + 3),
        ),
        !negates(toks, i),
{
    assert forall|r: nat| rank + 1 <= r < 5 implies #[trigger] operator(toks, i + 1, r) is None by {
        lemma_operator(toks, i + 1, op, r);
    }
    lemma_operator(toks, i + 1, op, rank);
    lemma_operand_level(toks, i, rank + 1, depth);
    lemma_operand_level(toks, i + 2, rank + 1, depth);
    let both = joined(operand(toks[i]), op, operand(toks[i + 2]));
    assert(operator(toks, i + 3, rank) is None);
    assert(chain(toks, i + 3, rank, depth, both, toks.len()) == Ok::<(ExprM, int), Str>(
        (both, i + 3),
    ));
    assert(chain(toks, i + 1, rank, depth, operand(toks[i]), toks.len() + 1) == Ok::<
        (ExprM, int),
        Str,
    >((both, i + 3)));
    assert(level(toks, i, rank, depth) == Ok::<(ExprM, int), Str>((both, i + 3)));
    lemma_up(toks, i, low, rank, depth, both, i + 3);
}

/// Of two operators the tighter one joins its operands first, and of two that bind alike the left
/// one does. Multiplication binds tighter than addition, addition tighter than comparison,
/// comparison tighter than `and`, and `and` tighter than `or`.
pub proof fn law_tighter_operators_come_first(
    a: TokenM,
    op1: BinaryOp,
    b: TokenM,
    op2: BinaryOp,
    c: TokenM,
    depth: nat,
)
    requires
        is_operand(a),
        is_operand(b),
        is_operand(c),
        depth > 0,
    ensures
        ({
            let toks = seq![a, TokenM::Sign(sign_of(op1)), b, TokenM::Sign(sign_of(op2)), c];
            &&& rank_of(op1) >= rank_of(op2) ==> expression(toks, 0, depth) == Ok::<
                (ExprM, int),
                Str,
            >((joined(joined(operand(a), op1, operand(b)), op2, operand(c)), 5))
            &&& rank_of(op1) < rank_of(op2) ==> expression(toks, 0, depth) == Ok::<
                (ExprM, int),
                Str,
            >((joined(operand(a), op1, joined(operand(b), op2, operand(c))), 5))
        }),
{
    let toks = seq![a, TokenM::Sign(sign_of(op1)), b, TokenM::Sign(sign_of(op2)), c];
    let d = (depth - 1) as nat;
    let r1 = rank_of(op1);
    let r2 = rank_of(op2);
    assert forall|r: nat| true implies #[trigger] operator(toks, 5, r) is None by {
        lemma_none_at_end(toks, r);
    }
    lemma_none_at_end(toks, 0);
    assert forall|r: nat| r != r2 implies #[trigger] operator(toks, 3, r) is None by {
        lemma_operator(toks, 3, op2, r);
    }
    assert forall|r: nat| r != r1 implies #[trigger] operator(toks, 1, r) is None by {
        lemma_operator(toks, 1, op1, r);
    }
    lemma_operator(toks, 1, op1, r1);
    lemma_operator(toks, 3, op2, r2);
    if r1 > r2 {
        let left = joined(operand(a), op1, operand(b));
        lemma_joined(toks, 0, op1, r1, r2 + 1, d);
        lemma_operand_level(toks, 4, r2 + 1, d);
        let whole = joined(left, op2, operand(c));
        assert(chain(toks, 5, r2, d, whole, toks.len()) == Ok::<(ExprM, int), Str>((whole, 5)));
        assert(chain(toks, 3, r2, d, left, toks.len() + 1) == Ok::<(ExprM, int), Str>((whole, 5)));
        assert(level(toks, 0, r2, d) == Ok::<(ExprM, int), Str>((whole, 5)));
        lemma_up(toks, 0, 0, r2, d, whole, 5);
    } else if r1 == r2 {
        lemma_operand_level(toks, 0, r1 + 1, d);
        lemma_operand_level(toks, 2, r1 + 1, d);
        lemma_operand_level(toks, 4, r1 + 1, d);
        let left = joined(operand(a), op1, operand(b));
        let whole = joined(left, op2, operand(c));
        assert(chain(toks, 5, r1, d, whole, (toks.len() - 1) as nat) == Ok::<(ExprM, int), Str>(
            (whole, 5),
        ));
        assert(chain(toks, 3, r1, d, left, toks.len()) == Ok::<(ExprM, int), Str>((whole, 5)));
        assert(chain(toks, 1, r1, d, operand(a), toks.len() + 1) == Ok::<(ExprM, int), Str>(
            (whole, 5),
        ));
        assert(level(toks, 0, r1, d) == Ok::<(ExprM, int), Str>((whole, 5)));
        lemma_up(toks, 0, 0, r1, d, whole, 5);
    } else {
        let right = joined(operand(b), op2, operand(c));
        lemma_operand_level(toks, 0, r1 + 1, d);
        lemma_joined(toks, 2, op2, r2, r1 + 1, d);
        let whole = joined(operand(a), op1, right);
        assert(chain(toks, 5, r1, d, whole, toks.len()) == Ok::<(ExprM, int), Str>((whole, 5)));
        assert(chain(toks, 1, r1, d, operand(a), toks.len() + 1) == Ok::<(ExprM, int), Str>(
            (whole, 5),
        ));
        assert(level(toks, 0, r1, d) == Ok::<(ExprM, int), Str>((whole, 5)));
        lemma_up(toks, 0, 0, r1, d, whole, 5);
    }
}

// ---------------------------------------------------------------------------
// Other expressions
// ---------------------------------------------------------------------------

proof fn lemma_whole(toks: Seq<TokenM>, depth: nat, e: ExprM)
    requires
        depth > 0,
        unary(toks, 0, (depth - 1) as nat) == Ok::<(ExprM, int), Str>((e, toks.len() as int)),
        !negates(toks, 0),
    ensures
        expression(toks, 0, depth) == Ok::<(ExprM, int), Str>((e, toks.len() as int)),
{
    let d = (depth - 1) as nat;
    assert(level(toks, 0, 5, d) == unary(toks, 0, d));
    assert forall|r: nat| 0 <= r < 5 implies #[trigger] operator(
        toks,
        toks.len() as int,
        r,
    ) is None by {
        lemma_none_at_end(toks, r);
    }
    lemma_none_at_end(toks, 0);
    lemma_up(toks, 0, 0, 5, d, e, toks.len() as int);
}

proof fn lemma_words_differ()
    ensures
        "if"@ != "else"@,
        "true"@ != "false"@,
        "true"@ != "none"@,
        "false"@ != "none"@,
        "true"@ != "await"@,
        "false"@ != "await"@,
        "none"@ != "await"@,
        "true"@ != "not"@,
        "false"@ != "not"@,
        "none"@ != "not"@,
        "await"@ != "not"@,
        "if"@ != "or"@,
        "if"@ != "and"@,
        "else"@ != "or"@,
        "else"@ != "and"@,
{
    reveal_strlit("if");
    reveal_strlit("else");
    reveal_strlit("true");
    reveal_strlit("false");
    reveal_strlit("none");
    reveal_strlit("await");
    reveal_strlit("not");
    reveal_strlit("or");
    reveal_strlit("and");
    assert("if"@.len() == 2 && "if"@[0] == 'i');
    assert("else"@.len() == 4);
    assert("true"@.len() == 4 && "true"@[0] == 't');
    assert("false"@.len() == 5 && "false"@[0] == 'f');
    assert("none"@.len() == 4 && "none"@[0] == 'n');
    assert("await"@.len() == 5 && "await"@[0] == 'a');
    assert("not"@.len() == 3);
    assert("or"@.len() == 2 && "or"@[0] == 'o');
    assert("and"@.len() == 3);
}

/// An operand alone is itself; the words `true`, `false` and `none` are the values they name.
pub proof fn law_operands_alone(a: TokenM, depth: nat)
    requires
        depth > 0,
    ensures
        is_operand(a) ==> expression(seq![a], 0, depth) == Ok::<(ExprM, int), Str>(
            (operand(a), 1),
        ),
        a == TokenM::Name("true"@) ==> expression(seq![a], 0, depth) == Ok::<(ExprM, int), Str>(
            (ExprM::Literal(LiteralM::Bool(true)), 1),
        ),
        a == TokenM::Name("false"@) ==> expression(seq![a], 0, depth) == Ok::<(ExprM, int), Str>(
            (ExprM::Literal(LiteralM::Bool(false)), 1),
        ),
        a == TokenM::Name("none"@) ==> expression(seq![a], 0, depth) == Ok::<(ExprM, int), Str>(
            (ExprM::Literal(LiteralM::Nil), 1),
        ),
{
    lemma_words_differ();
    let toks = seq![a];
    let d = (depth - 1) as nat;
    if is_operand(a) {
        lemma_operand(toks, 0, d);
        lemma_whole(toks, depth, operand(a));
    } else if a == TokenM::Name("true"@) || a == TokenM::Name("false"@) || a == TokenM::Name(
        "none"@,
    ) {
        let e = ExprM::Literal(
            if a == TokenM::Name("true"@) {
                LiteralM::Bool(true)
            } else if a == TokenM::Name("false"@) {
                LiteralM::Bool(false)
            } else {
                LiteralM::Nil
            },
        );
        assert(suffixes(toks, 1, d, e, toks.len() + 1) == Ok::<(ExprM, int), Str>((e, 1)));
        assert(primary(toks, 0, d) == Ok::<(ExprM, int), Str>((e, 1)));
        assert(!sign_is(toks, 0, Sign::Minus) && !word_is(toks, 0, "await"@));
        assert(unary(toks, 0, d) == Ok::<(ExprM, int), Str>((e, 1)));
        lemma_whole(toks, depth, e);
    }
}

/// A minus sign in front of an operand negates it, and `await` waits for it.
pub proof fn law_signs_in_front(a: TokenM, depth: nat)
    requires
        is_operand(a),
        depth > 1,
    ensures
        expression(seq![TokenM::Sign(Sign::Minus), a], 0, depth) == Ok::<(ExprM, int), Str>(
            (ExprM::Unary { op: UnaryOp::Negate, value: Box::new(operand(a)) }, 2),
        ),
        expression(seq![TokenM::Name("await"@), a], 0, depth) == Ok::<(ExprM, int), Str>(
            (ExprM::Await(Box::new(operand(a))), 2),
        ),
{
    lemma_words_differ();
    let d = (depth - 1) as nat;
    let minus = seq![TokenM::Sign(Sign::Minus), a];
    lemma_operand(minus, 1, (d - 1) as nat);
    lemma_whole(minus, depth, ExprM::Unary { op: UnaryOp::Negate, value: Box::new(operand(a)) });
    let wait = seq![TokenM::Name("await"@), a];
    lemma_operand(wait, 1, (d - 1) as nat);
    lemma_whole(wait, depth, ExprM::Await(Box::new(operand(a))));
}

/// `not`, as a word or as a sign, turns the truth of an operand round, and of a whole comparison.
pub proof fn law_not_turns_comparisons_round(
    a: TokenM,
    op: BinaryOp,
    b: TokenM,
    no: TokenM,
    depth: nat,
)
    requires
        is_operand(a),
        is_operand(b),
        rank_of(op) >= 2,
        no == TokenM::Name("not"@) || no == TokenM::Sign(Sign::Not),
        depth > 1,
    ensures
        expression(seq![no, a], 0, depth) == Ok::<(ExprM, int), Str>(
            (ExprM::Unary { op: UnaryOp::Not, value: Box::new(operand(a)) }, 2),
        ),
        expression(seq![no, a, TokenM::Sign(sign_of(op)), b], 0, depth) == Ok::<(ExprM, int), Str>(
            (
                ExprM::Unary {
                    op: UnaryOp::Not,
                    value: Box::new(joined(operand(a), op, operand(b))),
                },
                4,
            ),
        ),
{
    let d = (depth - 1) as nat;
    let one = seq![no, a];
    assert forall|r: nat| true implies #[trigger] operator(one, 2, r) is None by {
        lemma_none_at_end(one, r);
    }
    lemma_none_at_end(one, 0);
    lemma_operand_level(one, 1, 2, (d - 1) as nat);
    let turned = ExprM::Unary { op: UnaryOp::Not, value: Box::new(operand(a)) };
    assert(level(one, 0, 2, d) == Ok::<(ExprM, int), Str>((turned, 2)));
    lemma_up_above(one, d, turned, 2);
    let two = seq![no, a, TokenM::Sign(sign_of(op)), b];
    assert forall|r: nat| true implies #[trigger] operator(two, 4, r) is None by {
        lemma_none_at_end(two, r);
    }
    lemma_none_at_end(two, 0);
    lemma_joined(two, 1, op, rank_of(op), 2, (d - 1) as nat);
    let both = ExprM::Unary {
        op: UnaryOp::Not,
        value: Box::new(joined(operand(a), op, operand(b))),
    };
    assert(level(two, 0, 2, d) == Ok::<(ExprM, int), Str>((both, 4)));
    lemma_up_above(two, d, both, 4);
}

proof fn lemma_up_above(toks: Seq<TokenM>, depth: nat, e: ExprM, j: int)
    requires
        level(toks, 0, 2, depth) == Ok::<(ExprM, int), Str>((e, j)),
        operator(toks, j, 1) is None,
        operator(toks, j, 0) is None,
    ensures
        level(toks, 0, 0, depth) == Ok::<(ExprM, int), Str>((e, j)),
{
    assert(chain(toks, j, 1, depth, e, toks.len() + 1) == Ok::<(ExprM, int), Str>((e, j)));
    assert(level(toks, 0, 1, depth) == Ok::<(ExprM, int), Str>((e, j)));
    assert(chain(toks, j, 0, depth, e, toks.len() + 1) == Ok::<(ExprM, int), Str>((e, j)));
}

/// A choice names what holds if the condition does, then the condition, then what holds otherwise.
pub proof fn law_choices(a: TokenM, c: TokenM, b: TokenM, depth: nat)
    requires
        is_operand(a),
        is_operand(b),
        is_operand(c),
        depth > 1,
    ensures
        expression(
            seq![a, TokenM::Name("if"@), c, TokenM::Name("else"@), b],
            0,
            depth,
        ) == Ok::<(ExprM, int), Str>(
            (
                ExprM::Conditional {
                    condition: Box::new(operand(c)),
                    then_branch: Box::new(operand(a)),
                    else_branch: Box::new(operand(b)),
                },
                5,
            ),
        ),
{
    lemma_words_differ();
    let toks = seq![a, TokenM::Name("if"@), c, TokenM::Name("else"@), b];
    let d = (depth - 1) as nat;
    assert forall|r: nat| true implies #[trigger] operator(toks, 1, r) is None by {}
    assert forall|r: nat| true implies #[trigger] operator(toks, 3, r) is None by {}
    assert forall|r: nat| true implies #[trigger] operator(toks, 5, r) is None by {
        lemma_none_at_end(toks, r);
    }
    lemma_none_at_end(toks, 0);
    lemma_operand_level(toks, 0, 0, d);
    lemma_operand_level(toks, 2, 0, d);
    lemma_operand_level(toks, 4, 0, (d - 1) as nat);
    assert(expression(toks, 4, d) == Ok::<(ExprM, int), Str>((operand(b), 5)));
}

/// Brackets around a sum make it one operand of what stands behind them.
pub proof fn law_brackets_group(
    a: TokenM,
    op1: BinaryOp,
    b: TokenM,
    depth: nat,
)
    requires
        is_operand(a),
        is_operand(b),
        depth > 2,
    ensures
        expression(
            seq![
                TokenM::Sign(Sign::LeftParen),
                a,
                TokenM::Sign(sign_of(op1)),
                b,
                TokenM::Sign(Sign::RightParen),
            ],
            0,
            depth,
        ) == Ok::<(ExprM, int), Str>((joined(operand(a), op1, operand(b)), 5)),
{
    let toks = seq![
        TokenM::Sign(Sign::LeftParen),
        a,
        TokenM::Sign(sign_of(op1)),
        b,
        TokenM::Sign(Sign::RightParen),
    ];
    let d = (depth - 1) as nat;
    let inner = joined(operand(a), op1, operand(b));
    assert forall|r: nat| true implies #[trigger] operator(toks, 4, r) is None by {}
    lemma_joined(toks, 1, op1, rank_of(op1), 0, (d - 2) as nat);
    assert(expression(toks, 1, (d - 1) as nat) == Ok::<(ExprM, int), Str>((inner, 4)));
    assert(primary(toks, 0, d) == Ok::<(ExprM, int), Str>((inner, 5)));
    assert(suffixes(toks, 5, d, inner, toks.len() + 1) == Ok::<(ExprM, int), Str>((inner, 5)));
    lemma_whole(toks, depth, inner);
}

proof fn lemma_operand_before(toks: Seq<TokenM>, i: int, depth: nat)
    requires
        0 <= i < toks.len(),
        is_operand(toks[i]),
        depth > 0,
        i + 1 < toks.len(),
        toks[i + 1] == TokenM::Sign(Sign::Comma) || toks[i + 1] == TokenM::Sign(Sign::RightParen)
            || toks[i + 1] == TokenM::Sign(Sign::RightBracket) || toks[i + 1] == TokenM::Sign(
            Sign::RightBrace,
        ) || toks[i + 1] == TokenM::Sign(Sign::Colon),
    ensures
        expression(toks, i, depth) == Ok::<(ExprM, int), Str>((operand(toks[i]), i + 1)),
{
    assert forall|r: nat| true implies #[trigger] operator(toks, i + 1, r) is None by {}
    lemma_operand_level(toks, i, 0, (depth - 1) as nat);
}

/// A call has the arguments between its brackets, in their order; one with a name and an equal
/// sign in front of it is for the parameter of that name.
pub proof fn law_calls_are_read(f: TokenM, a: TokenM, name: Str, b: TokenM, depth: nat)
    requires
        is_operand(f),
        is_operand(a),
        is_operand(b),
        depth > 2,
    ensures
        expression(
            seq![
                f,
                TokenM::Sign(Sign::LeftParen),
                a,
                TokenM::Sign(Sign::Comma),
                TokenM::Name(name),
                TokenM::Sign(Sign::Assign),
                b,
                TokenM::Sign(Sign::RightParen),
            ],
            0,
            depth,
        ) == Ok::<(ExprM, int), Str>(
            (
                ExprM::Call {
                    callee: Box::new(operand(f)),
                    args: seq![
                        CallArgM { name: None, value: operand(a) },
                        CallArgM { name: Some(name), value: operand(b) },
                    ],
                },
                8,
            ),
        ),
{
    let toks = seq![
        f,
        TokenM::Sign(Sign::LeftParen),
        a,
        TokenM::Sign(Sign::Comma),
        TokenM::Name(name),
        TokenM::Sign(Sign::Assign),
        b,
        TokenM::Sign(Sign::RightParen),
    ];
    let d = (depth - 1) as nat;
    lemma_operand_before(toks, 2, (d - 1) as nat);
    lemma_operand_before(toks, 6, (d - 1) as nat);
    let first = CallArgM { name: None, value: operand(a) };
    let second = CallArgM { name: Some(name), value: operand(b) };
    let none = Seq::<CallArgM>::empty();
    assert(none.push(first).push(second) =~= seq![first, second]);
    assert(arguments(toks, 4, d, none.push(first), toks.len()) == Ok::<(Seq<CallArgM>, int), Str>(
        (seq![first, second], 8),
    ));
    assert(arguments(toks, 2, d, none, toks.len() + 1) == Ok::<(Seq<CallArgM>, int), Str>(
        (seq![first, second], 8),
    ));
    let e = ExprM::Call { callee: Box::new(operand(f)), args: seq![first, second] };
    assert(suffixes(toks, 8, d, e, toks.len()) == Ok::<(ExprM, int), Str>((e, 8)));
    assert(suffixes(toks, 1, d, operand(f), toks.len() + 1) == Ok::<(ExprM, int), Str>((e, 8)));
    assert(primary(toks, 0, d) == Ok::<(ExprM, int), Str>((operand(f), 1)));
    assert(unary(toks, 0, d) == Ok::<(ExprM, int), Str>((e, 8)));
    lemma_whole(toks, depth, e);
}

/// A dot and a name behind an operand take its member, brackets an item, and a question mark asks
/// for its value.
pub proof fn law_members_and_items_are_read(a: TokenM, name: Str, b: TokenM, depth: nat)
    requires
        is_operand(a),
        is_operand(b),
        depth > 2,
    ensures
        expression(seq![a, TokenM::Sign(Sign::Dot), TokenM::Name(name)], 0, depth) == Ok::<
            (ExprM, int),
            Str,
        >((ExprM::Member { target: Box::new(operand(a)), member: name }, 3)),
        expression(
            seq![a, TokenM::Sign(Sign::LeftBracket), b, TokenM::Sign(Sign::RightBracket)],
            0,
            depth,
        ) == Ok::<(ExprM, int), Str>(
            (ExprM::Index { target: Box::new(operand(a)), index: Box::new(operand(b)) }, 4),
        ),
        expression(seq![a, TokenM::Sign(Sign::Question)], 0, depth) == Ok::<(ExprM, int), Str>(
            (ExprM::Propagate(Box::new(operand(a))), 2),
        ),
{
    let d = (depth - 1) as nat;
    let member = seq![a, TokenM::Sign(Sign::Dot), TokenM::Name(name)];
    let m = ExprM::Member { target: Box::new(operand(a)), member: name };
    assert(suffixes(member, 3, d, m, member.len()) == Ok::<(ExprM, int), Str>((m, 3)));
    assert(suffixes(member, 1, d, operand(a), member.len() + 1) == Ok::<(ExprM, int), Str>((m, 3)));
    assert(primary(member, 0, d) == Ok::<(ExprM, int), Str>((operand(a), 1)));
    assert(unary(member, 0, d) == Ok::<(ExprM, int), Str>((m, 3)));
    lemma_whole(member, depth, m);
    let item = seq![a, TokenM::Sign(Sign::LeftBracket), b, TokenM::Sign(Sign::RightBracket)];
    lemma_operand_before(item, 2, (d - 1) as nat);
    let x = ExprM::Index { target: Box::new(operand(a)), index: Box::new(operand(b)) };
    assert(suffixes(item, 4, d, x, item.len()) == Ok::<(ExprM, int), Str>((x, 4)));
    assert(suffixes(item, 1, d, operand(a), item.len() + 1) == Ok::<(ExprM, int), Str>((x, 4)));
    assert(primary(item, 0, d) == Ok::<(ExprM, int), Str>((operand(a), 1)));
    assert(unary(item, 0, d) == Ok::<(ExprM, int), Str>((x, 4)));
    lemma_whole(item, depth, x);
    let asked = seq![a, TokenM::Sign(Sign::Question)];
    let q = ExprM::Propagate(Box::new(operand(a)));
    assert(suffixes(asked, 2, d, q, asked.len()) == Ok::<(ExprM, int), Str>((q, 2)));
    assert(suffixes(asked, 1, d, operand(a), asked.len() + 1) == Ok::<(ExprM, int), Str>((q, 2)));
    assert(primary(asked, 0, d) == Ok::<(ExprM, int), Str>((operand(a), 1)));
    assert(unary(asked, 0, d) == Ok::<(ExprM, int), Str>((q, 2)));
    lemma_whole(asked, depth, q);
}

/// A list has the items between its brackets and a map the entries between its braces, in their
/// order; a name as a key stands for its text.
pub proof fn law_lists_and_maps_are_read(a: TokenM, b: TokenM, key: Str, depth: nat)
    requires
        is_operand(a),
        is_operand(b),
        depth > 2,
    ensures
        expression(
            seq![
                TokenM::Sign(Sign::LeftBracket),
                a,
                TokenM::Sign(Sign::Comma),
                b,
                TokenM::Sign(Sign::RightBracket),
            ],
            0,
            depth,
        ) == Ok::<(ExprM, int), Str>((ExprM::List(seq![operand(a), operand(b)]), 5)),
        expression(
            seq![
                TokenM::Sign(Sign::LeftBrace),
                TokenM::Name(key),
                TokenM::Sign(Sign::Colon),
                a,
                TokenM::Sign(Sign::RightBrace),
            ],
            0,
            depth,
        ) == Ok::<(ExprM, int), Str>(
            (ExprM::Dict(seq![(ExprM::Literal(LiteralM::Text(key)), operand(a))]), 5),
        ),
{
    let d = (depth - 1) as nat;
    let list = seq![
        TokenM::Sign(Sign::LeftBracket),
        a,
        TokenM::Sign(Sign::Comma),
        b,
        TokenM::Sign(Sign::RightBracket),
    ];
    lemma_operand_before(list, 1, (d - 1) as nat);
    lemma_operand_before(list, 3, (d - 1) as nat);
    let none = Seq::<ExprM>::empty();
    let both = seq![operand(a), operand(b)];
    assert(none.push(operand(a)).push(operand(b)) =~= both);
    assert(items(list, 3, d, none.push(operand(a)), list.len()) == Ok::<(Seq<ExprM>, int), Str>(
        (both, 5),
    ));
    assert(items(list, 1, d, none, list.len() + 1) == Ok::<(Seq<ExprM>, int), Str>((both, 5)));
    let l = ExprM::List(both);
    assert(primary(list, 0, d) == Ok::<(ExprM, int), Str>((l, 5)));
    assert(suffixes(list, 5, d, l, list.len() + 1) == Ok::<(ExprM, int), Str>((l, 5)));
    lemma_whole(list, depth, l);
    let map = seq![
        TokenM::Sign(Sign::LeftBrace),
        TokenM::Name(key),
        TokenM::Sign(Sign::Colon),
        a,
        TokenM::Sign(Sign::RightBrace),
    ];
    lemma_operand_before(map, 3, (d - 1) as nat);
    let nothing = Seq::<(ExprM, ExprM)>::empty();
    let pair = (ExprM::Literal(LiteralM::Text(key)), operand(a));
    assert(nothing.push(pair) =~= seq![pair]);
    assert(entries(map, 1, d, nothing, map.len() + 1) == Ok::<(Seq<(ExprM, ExprM)>, int), Str>(
        (seq![pair], 5),
    ));
    let m = ExprM::Dict(seq![pair]);
    assert(primary(map, 0, d) == Ok::<(ExprM, int), Str>((m, 5)));
    assert(suffixes(map, 5, d, m, map.len() + 1) == Ok::<(ExprM, int), Str>((m, 5)));
    lemma_whole(map, depth, m);
}

/// A text is an expression if all of its tokens are used up by one; nothing may stand behind it.
pub proof fn law_expressions_use_all_tokens(source: Str, toks: Seq<TokenM>)
    requires
        tokens(source) == Ok::<Seq<TokenM>, Str>(toks),
    ensures
        parsed_expression(source) is Ok <==> expression(toks, 0, 64) is Ok && (expression(
            toks,
            0,
            64,
        )->Ok_0).1 == toks.len(),
        parsed_expression(source) is Ok ==> parsed_expression(source)->Ok_0 == (expression(
            toks,
            0,
            64,
        )->Ok_0).0,
{
}

} // verus!
