//! The grammar of programs: statements line by line, blocks by indentation.

use crate::annotations::{generic_annotation, generic_args, generic_parts, split_generic_args};
use crate::ast::{lemma_program, opt_text, views, Expr, ExprM, Param, ParamM, Program, Stmt, StmtM};
use crate::layout::{block, block_end, indented, is_blank, layout, lemma_block_end, lines_of,
    source_lines, validate_source_layout};
use crate::lexer::{continues_name, starts_name};
use crate::syntax::{parse_expression, parsed_expression, told_expr};
use crate::text::{after, before, chars_of, contains, cut, ends_with, has_prefix, has_suffix,
    is_blank_text, join2, same, split_once, starts_with, text_holds, text_of, texts, trim, trimmed,
    Str};
use crate::value::{fail, told};
use crate::webcheck::leads;
use std::rc::Rc;
use vstd::prelude::*;

verus! {

/// How deep blocks may be nested in source text.
pub const MAX_BLOCK_DEPTH: usize = 64;

// ---------------------------------------------------------------------------
// Signatures
// ---------------------------------------------------------------------------

/// The first comma or closing bracket, from `i` on, that stands outside of texts and of inner
/// brackets, or the end. Angle brackets count as long as no default value has begun.
pub open spec fn piece_stop(s: Str, i: int, depth: nat, quoted: bool, defaulted: bool) -> int
    decreases s.len() - i + 1,
{
    if i < 0 || i >= s.len() {
        s.len() as int
    } else if quoted {
        if s[i] == '\\' {
            piece_stop(s, i + 2, depth, true, defaulted)
        } else {
            piece_stop(s, i + 1, depth, s[i] != '"', defaulted)
        }
    } else if s[i] == '"' {
        piece_stop(s, i + 1, depth, true, defaulted)
    } else if s[i] == '(' || s[i] == '[' || s[i] == '{' || (s[i] == '<' && !defaulted) {
        piece_stop(s, i + 1, depth + 1, false, defaulted)
    } else if s[i] == ')' || s[i] == ']' || s[i] == '}' || (s[i] == '>' && !defaulted) {
        if depth == 0 {
            i
        } else {
            piece_stop(s, i + 1, (depth - 1) as nat, false, defaulted)
        }
    } else if s[i] == ',' && depth == 0 {
        i
    } else {
        piece_stop(s, i + 1, depth, false, defaulted || s[i] == '=')
    }
}

/// A name with the annotation behind its colon.
pub open spec fn annotated(s: Str) -> (Str, Option<Str>) {
    match cut(s, ":"@) {
        Some(pair) => (trim(pair.0), Some(trim(pair.1))),
        None => (trim(s), None),
    }
}

/// A parameter: its name, its annotation, its default value.
pub open spec fn parameter(piece: Str) -> ParamM {
    match cut(piece, "="@) {
        Some(pair) => ParamM {
            name: annotated(pair.0).0,
            annotation: annotated(pair.0).1,
            default: Some(trim(pair.1)),
        },
        None => ParamM { name: annotated(piece).0, annotation: annotated(piece).1, default: None },
    }
}

pub open spec fn signature_error() -> Str {
    "invalid function signature"@
}

/// The parameters from `i` on up to the closing bracket, behind `done`, and where they end.
pub open spec fn parameters(s: Str, i: int, done: Seq<ParamM>) -> Result<(Seq<ParamM>, int), Str>
    decreases s.len() - i,
{
    if i < 0 || i > s.len() {
        Err(signature_error())
    } else {
        let e = piece_stop(s, i, 0, false, false);
        if e < i || e >= s.len() {
            Err(signature_error())
        } else {
            let piece = trim(s.subrange(i, e));
            let more = if piece.len() == 0 {
                done
            } else {
                done.push(parameter(piece))
            };
            if s[e] == ',' {
                parameters(s, e + 1, more)
            } else if s[e] == ')' {
                Ok((more, e + 1))
            } else {
                Err(signature_error())
            }
        }
    }
}

/// The parameters of a function and the annotation of its result, from the text behind the
/// opening bracket.
pub open spec fn signature(args: Str) -> Result<(Seq<ParamM>, Option<Str>), Str> {
    match parameters(args, 0, Seq::empty()) {
        Err(error) => Err(error),
        Ok((params, e)) => {
            let rest = trim(args.skip(e));
            if rest.len() == 0 {
                Ok((params, None))
            } else if has_prefix(rest, "->"@) {
                Ok((params, Some(trim(rest.skip(2)))))
            } else {
                Err(signature_error())
            }
        },
    }
}

fn find_piece_stop(v: &Vec<char>, from: usize) -> (r: usize)
    requires
        from <= v@.len(),
    ensures
        r == piece_stop(v@, from as int, 0, false, false),
        from <= r <= v@.len(),
{
    let mut i: usize = from;
    let mut depth: usize = 0;
    let mut quoted: bool = false;
    let mut defaulted: bool = false;
    while i < v.len()
        invariant
            from <= i <= v@.len(),
            depth <= i,
            piece_stop(v@, from as int, 0, false, false) == piece_stop(
                v@,
                i as int,
                depth as nat,
                quoted,
                defaulted,
            ),
        decreases v.len() - i,
    {
        let c = v[i];
        if quoted {
            if c == '\\' {
                if i + 1 >= v.len() {
                    assert(piece_stop(v@, i + 2, depth as nat, true, defaulted) == v@.len());
                    return v.len();
                }
                i += 2;
            } else {
                quoted = c != '"';
                i += 1;
            }
        } else if c == '"' {
            quoted = true;
            i += 1;
        } else if c == '(' || c == '[' || c == '{' || (c == '<' && !defaulted) {
            depth += 1;
            i += 1;
        } else if c == ')' || c == ']' || c == '}' || (c == '>' && !defaulted) {
            if depth == 0 {
                return i;
            }
            depth -= 1;
            i += 1;
        } else if c == ',' && depth == 0 {
            return i;
        } else {
            defaulted = defaulted || c == '=';
            i += 1;
        }
    }
    v.len()
}

fn read_annotated(s: &str) -> (r: (String, Option<String>))
    ensures
        (r.0@, opt_text(r.1)) == annotated(s@),
{
    match split_once(s, ":") {
        Some(pair) => (trimmed(pair.0.as_str()), Some(trimmed(pair.1.as_str()))),
        None => (trimmed(s), None),
    }
}

fn read_parameter(piece: &str) -> (r: Param)
    ensures
        r@ == parameter(piece@),
{
    match split_once(piece, "=") {
        Some(pair) => {
            let (name, annotation) = read_annotated(pair.0.as_str());
            Param { name, annotation, default: Some(trimmed(pair.1.as_str())) }
        },
        None => {
            let (name, annotation) = read_annotated(piece);
            Param { name, annotation, default: None }
        },
    }
}

spec fn told_params(r: Result<(Vec<Param>, usize), String>) -> Result<(Seq<ParamM>, int), Str> {
    match r {
        Ok(pair) => Ok((views(pair.0@), pair.1 as int)),
        Err(error) => Err(error@),
    }
}

fn read_parameters(v: &Vec<char>) -> (r: Result<(Vec<Param>, usize), String>)
    ensures
        told_params(r) == parameters(v@, 0, Seq::empty()),
        match r {
            Ok(pair) => pair.1 <= v@.len(),
            Err(_) => true,
        },
{
    let mut done: Vec<Param> = Vec::new();
    let mut i: usize = 0;
    assert(views(done@) =~= Seq::<ParamM>::empty());
    loop
        invariant
            i <= v@.len(),
            parameters(v@, 0, Seq::empty()) == parameters(v@, i as int, views(done@)),
        decreases v.len() - i,
    {
        let e = find_piece_stop(v, i);
        if e >= v.len() {
            return fail("invalid function signature");
        }
        let piece = trimmed(text_of(v, i, e).as_str());
        if !is_blank_text(piece.as_str()) {
            let ghost before = views(done@);
            let param = read_parameter(piece.as_str());
            done.push(param);
            assert(views(done@) =~= before.push(param@));
        }
        if v[e] == ',' {
            i = e + 1;
        } else if v[e] == ')' {
            return Ok((done, e + 1));
        } else {
            return fail("invalid function signature");
        }
    }
}

pub open spec fn told_signature(r: Result<(Vec<Param>, Option<String>), String>) -> Result<
    (Seq<ParamM>, Option<Str>),
    Str,
> {
    match r {
        Ok(pair) => Ok((views(pair.0@), opt_text(pair.1))),
        Err(error) => Err(error@),
    }
}

pub fn parse_signature(args: &str) -> (r: Result<(Vec<Param>, Option<String>), String>)
    ensures
        told_signature(r) == signature(args@),
{
    let v = chars_of(args);
    let (params, e) = match read_parameters(&v) {
        Err(error) => {
            return Err(error);
        },
        Ok(pair) => pair,
    };
    let rest = trimmed(after(args, e).as_str());
    if is_blank_text(rest.as_str()) {
        return Ok((params, None));
    }
    if !starts_with(rest.as_str(), "->") {
        return fail("invalid function signature");
    }
    proof {
        reveal_strlit("->");
    }
    Ok((params, Some(trimmed(after(rest.as_str(), 2).as_str()))))
}

// ---------------------------------------------------------------------------
// Lines
// ---------------------------------------------------------------------------

/// What stands behind a word at the start of a line.
pub open spec fn behind(line: Str, word: Str) -> Option<Str> {
    if has_prefix(line, word) {
        Some(trim(line.skip(word.len() as int)))
    } else {
        None
    }
}

pub fn strip(line: &str, word: &str) -> (r: Option<String>)
    ensures
        opt_text(r) == behind(line@, word@),
{
    if starts_with(line, word) {
        let n = chars_of(word).len();
        Some(trimmed(after(line, n).as_str()))
    } else {
        None
    }
}

pub open spec fn good_name(s: Str) -> bool {
    s.len() > 0 && starts_name(s[0]) && forall|i: int|
        0 <= i < s.len() ==> continues_name(#[trigger] s[i])
}

pub fn is_good_name(s: &str) -> (r: bool)
    ensures
        r == good_name(s@),
{
    let v = chars_of(s);
    if v.len() == 0 || ('0' <= v[0] && v[0] <= '9') {
        return false;
    }
    let mut i: usize = 0;
    while i < v.len()
        invariant
            i <= v@.len(),
            v@ == s@,
            forall|k: int| 0 <= k < i ==> continues_name(#[trigger] v@[k]),
        decreases v.len() - i,
    {
        let c = v[i];
        if !(crate::text::alnum(c) || c == '_' || c > '\u{7f}') {
            assert(!continues_name(v@[i as int]));
            return false;
        }
        i += 1;
    }
    true
}

/// What a line that opens a block, or a whole statement, says.
pub enum HeadM {
    Simple(StmtM),
    If(ExprM),
    While(ExprM),
    For(Str, ExprM),
    Try,
    Function {
        name: Str,
        type_params: Seq<Str>,
        params: Seq<ParamM>,
        return_type: Option<Str>,
        visibility: Str,
        is_async: bool,
        exported: bool,
    },
    Class(Str, Option<Str>),
}

pub open spec fn name_error(name: Str) -> Str {
    "invalid name: "@ + name
}

/// The text of a line without the colon at its end.
pub open spec fn opened(rest: Str) -> Result<Str, Str> {
    if has_suffix(rest, ":"@) {
        Ok(trim(rest.take(rest.len() - 1)))
    } else {
        Err("expected : at the end of the line"@)
    }
}

/// A condition in front of a block.
pub open spec fn condition(rest: Str) -> Result<ExprM, Str> {
    match opened(rest) {
        Err(error) => Err(error),
        Ok(source) => parsed_expression(source),
    }
}

pub open spec fn declaration(rest: Str, class: bool, visibility: Str, exported: bool) -> Result<
    HeadM,
    Str,
> {
    match cut(rest, "="@) {
        None => Err("expected = in declaration"@),
        Some(pair) => {
            let (name, annotation) = annotated(pair.0);
            if !good_name(name) {
                Err(name_error(name))
            } else {
                match parsed_expression(trim(pair.1)) {
                    Err(error) => Err(error),
                    Ok(value) => Ok(
                        HeadM::Simple(
                            if class {
                                StmtM::Field { name, annotation, value, visibility }
                            } else {
                                StmtM::Declaration { name, annotation, value, exported }
                            },
                        ),
                    ),
                }
            }
        },
    }
}

/// The name of a function and its type parameters.
pub open spec fn function_title(title: Str) -> Result<(Str, Seq<Str>), Str> {
    match generic_parts(title) {
        Some(parts) => match generic_args(parts.1) {
            Ok(type_params) => Ok((trim(parts.0), type_params)),
            Err(error) => Err(error),
        },
        None => Ok((title, Seq::empty())),
    }
}

pub open spec fn function_head(rest: Str, visibility: Str, is_async: bool, exported: bool) -> Result<
    HeadM,
    Str,
> {
    match opened(rest) {
        Err(error) => Err(error),
        Ok(head) => match cut(head, "("@) {
            None => Err("function syntax: fn name(a, b):"@),
            Some(pair) => {
                match function_title(trim(pair.0)) {
                    Err(error) => Err(error),
                    Ok((name, type_params)) => if !good_name(name) {
                        Err(name_error(name))
                    } else {
                        match signature(pair.1) {
                            Err(error) => Err(error),
                            Ok((params, return_type)) => Ok(
                                HeadM::Function {
                                    name,
                                    type_params,
                                    params,
                                    return_type,
                                    visibility,
                                    is_async,
                                    exported,
                                },
                            ),
                        }
                    },
                }
            },
        },
    }
}

pub open spec fn class_head(rest: Str) -> Result<HeadM, Str> {
    match opened(rest) {
        Err(error) => Err(error),
        Ok(head) => {
            let (name, base) = match cut(head, " extends "@) {
                Some(pair) => (trim(pair.0), Some(trim(pair.1))),
                None => (head, None),
            };
            if !good_name(name) {
                Err(name_error(name))
            } else {
                Ok(HeadM::Class(name, base))
            }
        },
    }
}

pub open spec fn for_head(rest: Str) -> Result<HeadM, Str> {
    match opened(rest) {
        Err(error) => Err(error),
        Ok(head) => match cut(head, " in "@) {
            None => Err("for syntax: for item in list:"@),
            Some(pair) => if !good_name(trim(pair.0)) {
                Err(name_error(trim(pair.0)))
            } else {
                match parsed_expression(trim(pair.1)) {
                    Err(error) => Err(error),
                    Ok(value) => Ok(HeadM::For(trim(pair.0), value)),
                }
            },
        },
    }
}

/// Whether a `use` line names a file.
pub open spec fn names_file(spec_text: Str) -> bool {
    leads(spec_text, '"') || spec_text.contains('/') || has_suffix(spec_text, ".zp"@)
}

/// The target of an assignment and the text of its value: a name, or a name and a field, stands
/// before a single equals sign.
pub open spec fn assignment(line: Str) -> Option<(Str, Str)> {
    match cut(line, "="@) {
        None => None,
        Some(pair) => {
            let target = trim(pair.0);
            let plain = match cut(target, "."@) {
                Some(parts) => good_name(trim(parts.0)) && good_name(trim(parts.1)),
                None => good_name(target),
            };
            if plain && !leads(pair.1, '=') {
                Some((target, trim(pair.1)))
            } else {
                None
            }
        },
    }
}

pub open spec fn made(value: Result<ExprM, Str>, make: spec_fn(ExprM) -> StmtM) -> Result<
    HeadM,
    Str,
> {
    match value {
        Ok(e) => Ok(HeadM::Simple(make(e))),
        Err(error) => Err(error),
    }
}

/// A statement without a block, or the head of one with a block, other than a definition.
pub open spec fn plain_head(line: Str) -> Result<HeadM, Str> {
    match behind(line, "if "@) {
        Some(rest) => match condition(rest) {
            Ok(e) => Ok(HeadM::If(e)),
            Err(error) => Err(error),
        },
        None => match behind(line, "while "@) {
            Some(rest) => match condition(rest) {
                Ok(e) => Ok(HeadM::While(e)),
                Err(error) => Err(error),
            },
            None => match behind(line, "for "@) {
                Some(rest) => for_head(rest),
                None => if line == "try:"@ {
                    Ok(HeadM::Try)
                } else if line == "break"@ {
                    Ok(HeadM::Simple(StmtM::Break))
                } else if line == "continue"@ {
                    Ok(HeadM::Simple(StmtM::Continue))
                } else if line == "return"@ {
                    Ok(HeadM::Simple(StmtM::Return(None)))
                } else {
                    word_head(line)
                },
            },
        },
    }
}

/// A statement that begins with a word, an assignment, or an expression.
pub open spec fn word_head(line: Str) -> Result<HeadM, Str> {
    match behind(line, "say "@) {
        Some(rest) => made(parsed_expression(rest), |e: ExprM| StmtM::Say(e)),
        None => match behind(line, "raise "@) {
            Some(rest) => made(parsed_expression(rest), |e: ExprM| StmtM::Raise(e)),
            None => match behind(line, "return "@) {
                Some(rest) => made(parsed_expression(rest), |e: ExprM| StmtM::Return(Some(e))),
                None => match behind(line, "module "@) {
                    Some(rest) => Ok(HeadM::Simple(StmtM::Module { name: rest })),
                    None => match behind(line, "import "@) {
                        Some(rest) => Ok(
                            HeadM::Simple(StmtM::Import { path: rest, explicit: true }),
                        ),
                        None => match behind(line, "use "@) {
                            Some(rest) => Ok(
                                HeadM::Simple(
                                    if names_file(rest) {
                                        StmtM::Import { path: rest, explicit: false }
                                    } else {
                                        StmtM::Module { name: rest }
                                    },
                                ),
                            ),
                            None => match assignment(line) {
                                Some(pair) => made(
                                    parsed_expression(pair.1),
                                    |e: ExprM| StmtM::Assignment { name: pair.0, value: e },
                                ),
                                None => made(
                                    parsed_expression(line),
                                    |e: ExprM| StmtM::Expression(e),
                                ),
                            },
                        },
                    },
                },
            },
        },
    }
}

/// The visibility in front of a line of a class, and the rest of the line.
pub open spec fn visible(line: Str) -> (Str, Str) {
    match behind(line, "public "@) {
        Some(rest) => ("public"@, rest),
        None => match behind(line, "private "@) {
            Some(rest) => ("private"@, rest),
            None => match behind(line, "protected "@) {
                Some(rest) => ("protected"@, rest),
                None => ("public"@, line),
            },
        },
    }
}

/// What a line says. `class` tells that it stands in the body of a class.
pub open spec fn head(line: Str, class: bool) -> Result<HeadM, Str> {
    let (visibility, inner) = if class {
        visible(line)
    } else {
        ("public"@, line)
    };
    let (exported, own) = match behind(inner, "export "@) {
        Some(rest) => (true, rest),
        None => (false, inner),
    };
    match behind(own, "let "@) {
        Some(rest) => declaration(rest, class, visibility, exported),
        None => match behind(own, "async fn "@) {
            Some(rest) => function_head(rest, visibility, true, exported),
            None => match behind(own, "fn "@) {
                Some(rest) => function_head(rest, visibility, false, exported),
                None => match behind(own, "def "@) {
                    Some(rest) => function_head(rest, visibility, false, exported),
                    None => match behind(own, "class "@) {
                        Some(rest) => class_head(rest),
                        None => if exported {
                            Err("export expects a declaration or a function"@)
                        } else {
                            plain_head(own)
                        },
                    },
                },
            },
        },
    }
}

/// The name that a `catch` line binds.
pub open spec fn catch_name(line: Str) -> Option<Str> {
    match behind(line, "catch "@) {
        None => None,
        Some(rest) => match opened(rest) {
            Ok(name) => if good_name(name) {
                Some(name)
            } else {
                None
            },
            Err(_) => None,
        },
    }
}

/// The name that the line with a number binds, if it is a `catch` line.
pub open spec fn catch_at(lines: Seq<Str>, i: int) -> Option<Str> {
    if 0 <= i < lines.len() {
        catch_name(trim(lines[i]))
    } else {
        None
    }
}

pub open spec fn nesting_error() -> Str {
    "block nesting limit exceeded"@
}

/// The statements of the lines from number `i` on, behind `done`.
pub open spec fn statements(
    lines: Seq<Str>,
    i: int,
    depth: nat,
    class: bool,
    done: Seq<StmtM>,
) -> Result<Seq<StmtM>, Str>
    decreases depth, lines.len() - i,
{
    if i < 0 || i >= lines.len() {
        Ok(done)
    } else {
        let line = trim(lines[i]);
        if line.len() == 0 || leads(line, '#') {
            statements(lines, i + 1, depth, class, done)
        } else if is_blank(lines[i][0]) {
            Err("unexpected indentation"@)
        } else {
            match head(line, class) {
                Err(error) => Err(error),
                Ok(HeadM::Simple(statement)) => statements(
                    lines,
                    i + 1,
                    depth,
                    class,
                    done.push(statement),
                ),
                Ok(opening) => if depth == 0 {
                    Err(nesting_error())
                } else {
                    let inner = (depth - 1) as nat;
                    let e = block_end(lines, i + 1);
                    proof {
                        lemma_block_end(lines, i + 1);
                    }
                    match statements(block(lines, i + 1), 0, inner, opening is Class, Seq::empty()) {
                        Err(error) => Err(error),
                        Ok(body) => match opening {
                            HeadM::Simple(_) => Ok(done),
                            HeadM::If(test) => if e < lines.len() && trim(lines[e]) == "else:"@ {
                                let e2 = block_end(lines, e + 1);
                                proof {
                                    lemma_block_end(lines, e + 1);
                                }
                                match statements(
                                    block(lines, e + 1),
                                    0,
                                    inner,
                                    false,
                                    Seq::empty(),
                                ) {
                                    Err(error) => Err(error),
                                    Ok(other) => statements(
                                        lines,
                                        e2,
                                        depth,
                                        class,
                                        done.push(
                                            StmtM::If {
                                                condition: test,
                                                then_branch: body,
                                                else_branch: Some(other),
                                            },
                                        ),
                                    ),
                                }
                            } else {
                                statements(
                                    lines,
                                    e,
                                    depth,
                                    class,
                                    done.push(
                                        StmtM::If {
                                            condition: test,
                                            then_branch: body,
                                            else_branch: None,
                                        },
                                    ),
                                )
                            },
                            HeadM::While(test) => statements(
                                lines,
                                e,
                                depth,
                                class,
                                done.push(StmtM::While { condition: test, body }),
                            ),
                            HeadM::For(binding, iterable) => statements(
                                lines,
                                e,
                                depth,
                                class,
                                done.push(StmtM::For { binding, iterable, body }),
                            ),
                            HeadM::Try => match catch_at(lines, e) {
                                None => Err("try expects a catch block"@),
                                Some(binding) => {
                                    let e2 = block_end(lines, e + 1);
                                    proof {
                                        lemma_block_end(lines, e + 1);
                                    }
                                    match statements(
                                        block(lines, e + 1),
                                        0,
                                        inner,
                                        false,
                                        Seq::empty(),
                                    ) {
                                        Err(error) => Err(error),
                                        Ok(catch_body) => statements(
                                            lines,
                                            e2,
                                            depth,
                                            class,
                                            done.push(
                                                StmtM::TryCatch { body, binding, catch_body },
                                            ),
                                        ),
                                    }
                                },
                            },
                            HeadM::Function {
                                name,
                                type_params,
                                params,
                                return_type,
                                visibility,
                                is_async,
                                exported,
                            } => statements(
                                lines,
                                e,
                                depth,
                                class,
                                done.push(
                                    StmtM::Function {
                                        name,
                                        type_params,
                                        params,
                                        return_type,
                                        body,
                                        visibility,
                                        is_async,
                                        exported,
                                    },
                                ),
                            ),
                            HeadM::Class(name, base) => statements(
                                lines,
                                e,
                                depth,
                                class,
                                done.push(StmtM::Class { name, base, body }),
                            ),
                        },
                    }
                },
            }
        }
    }
}

/// The program that a source text denotes.
pub open spec fn parsed_program(source: Str) -> Result<Seq<StmtM>, Str> {
    match layout(lines_of(source)) {
        Err(error) => Err(error),
        Ok(_) => statements(lines_of(source), 0, MAX_BLOCK_DEPTH as nat, false, Seq::empty()),
    }
}

// ---------------------------------------------------------------------------
// The parser
// ---------------------------------------------------------------------------

enum Head {
    Simple(Stmt),
    If(Expr),
    While(Expr),
    For(String, Expr),
    Try,
    Function {
        name: String,
        type_params: Vec<String>,
        params: Vec<Param>,
        return_type: Option<String>,
        visibility: String,
        is_async: bool,
        exported: bool,
    },
    Class(String, Option<String>),
}

spec fn head_view(h: Head) -> HeadM {
    match h {
        Head::Simple(s) => HeadM::Simple(s@),
        Head::If(e) => HeadM::If(e@),
        Head::While(e) => HeadM::While(e@),
        Head::For(name, e) => HeadM::For(name@, e@),
        Head::Try => HeadM::Try,
        Head::Function {
            name,
            type_params,
            params,
            return_type,
            visibility,
            is_async,
            exported,
        } => HeadM::Function {
            name: name@,
            type_params: texts(type_params@),
            params: views(params@),
            return_type: opt_text(return_type),
            visibility: visibility@,
            is_async,
            exported,
        },
        Head::Class(name, base) => HeadM::Class(name@, opt_text(base)),
    }
}

spec fn told_head(r: Result<Head, String>) -> Result<HeadM, Str> {
    match r {
        Ok(h) => Ok(head_view(h)),
        Err(error) => Err(error@),
    }
}

fn read_opened(rest: &str) -> (r: Result<String, String>)
    ensures
        told(r) == opened(rest@),
{
    proof {
        reveal_strlit(":");
    }
    if !ends_with(rest, ":") {
        return fail("expected : at the end of the line");
    }
    let n = chars_of(rest).len();
    Ok(trimmed(before(rest, n - 1).as_str()))
}

fn read_condition(rest: &str) -> (r: Result<Expr, String>)
    ensures
        told_expr(r) == condition(rest@),
{
    match read_opened(rest) {
        Err(error) => Err(error),
        Ok(source) => parse_expression(source.as_str()),
    }
}

fn read_declaration(rest: &str, class: bool, visibility: String, exported: bool) -> (r: Result<
    Head,
    String,
>)
    ensures
        told_head(r) == declaration(rest@, class, visibility@, exported),
{
    let pair = match split_once(rest, "=") {
        None => {
            return fail("expected = in declaration");
        },
        Some(pair) => pair,
    };
    let (name, annotation) = read_annotated(pair.0.as_str());
    if !is_good_name(name.as_str()) {
        return Err(join2("invalid name: ", name.as_str()));
    }
    match parse_expression(trimmed(pair.1.as_str()).as_str()) {
        Err(error) => Err(error),
        Ok(value) => Ok(
            Head::Simple(
                if class {
                    Stmt::Field { name, annotation, value, visibility }
                } else {
                    Stmt::Declaration { name, annotation, value, exported }
                },
            ),
        ),
    }
}

spec fn told_title(r: Result<(String, Vec<String>), String>) -> Result<(Str, Seq<Str>), Str> {
    match r {
        Ok(pair) => Ok((pair.0@, texts(pair.1@))),
        Err(error) => Err(error@),
    }
}

fn read_title(title: &str) -> (r: Result<(String, Vec<String>), String>)
    ensures
        told_title(r) == function_title(title@),
{
    match generic_annotation(title) {
        Some(parts) => match split_generic_args(parts.1.as_str()) {
            Ok(type_params) => Ok((trimmed(parts.0.as_str()), type_params)),
            Err(error) => Err(error),
        },
        None => {
            let none: Vec<String> = Vec::new();
            assert(texts(none@) =~= Seq::<Str>::empty());
            Ok((title.to_owned(), none))
        },
    }
}

fn read_function_head(rest: &str, visibility: String, is_async: bool, exported: bool) -> (r: Result<
    Head,
    String,
>)
    ensures
        told_head(r) == function_head(rest@, visibility@, is_async, exported),
{
    let text = match read_opened(rest) {
        Err(error) => {
            return Err(error);
        },
        Ok(text) => text,
    };
    let pair = match split_once(text.as_str(), "(") {
        None => {
            return fail("function syntax: fn name(a, b):");
        },
        Some(pair) => pair,
    };
    let (name, type_params) = match read_title(trimmed(pair.0.as_str()).as_str()) {
        Err(error) => {
            return Err(error);
        },
        Ok(title) => title,
    };
    if !is_good_name(name.as_str()) {
        return Err(join2("invalid name: ", name.as_str()));
    }
    match parse_signature(pair.1.as_str()) {
        Err(error) => Err(error),
        Ok((params, return_type)) => Ok(
            Head::Function {
                name,
                type_params,
                params,
                return_type,
                visibility,
                is_async,
                exported,
            },
        ),
    }
}

fn read_class_head(rest: &str) -> (r: Result<Head, String>)
    ensures
        told_head(r) == class_head(rest@),
{
    let text = match read_opened(rest) {
        Err(error) => {
            return Err(error);
        },
        Ok(text) => text,
    };
    let (name, base) = match split_once(text.as_str(), " extends ") {
        Some(pair) => (trimmed(pair.0.as_str()), Some(trimmed(pair.1.as_str()))),
        None => (text, None),
    };
    if !is_good_name(name.as_str()) {
        return Err(join2("invalid name: ", name.as_str()));
    }
    Ok(Head::Class(name, base))
}

fn read_for_head(rest: &str) -> (r: Result<Head, String>)
    ensures
        told_head(r) == for_head(rest@),
{
    let text = match read_opened(rest) {
        Err(error) => {
            return Err(error);
        },
        Ok(text) => text,
    };
    let pair = match split_once(text.as_str(), " in ") {
        None => {
            return fail("for syntax: for item in list:");
        },
        Some(pair) => pair,
    };
    let binding = trimmed(pair.0.as_str());
    if !is_good_name(binding.as_str()) {
        return Err(join2("invalid name: ", binding.as_str()));
    }
    match parse_expression(trimmed(pair.1.as_str()).as_str()) {
        Err(error) => Err(error),
        Ok(value) => Ok(Head::For(binding, value)),
    }
}

fn begins_with(s: &str, c: char) -> (r: bool)
    ensures
        r == leads(s@, c),
{
    let v = chars_of(s);
    v.len() > 0 && v[0] == c
}

pub fn file_is_named(spec_text: &str) -> (r: bool)
    ensures
        r == names_file(spec_text@),
{
    begins_with(spec_text, '"') || text_holds(spec_text, '/') || ends_with(spec_text, ".zp")
}

fn read_assignment(line: &str) -> (r: Option<(String, String)>)
    ensures
        crate::text::pair_view(r) == assignment(line@),
{
    match split_once(line, "=") {
        None => None,
        Some(pair) => {
            let target = trimmed(pair.0.as_str());
            let plain = match split_once(target.as_str(), ".") {
                Some(parts) => is_good_name(trimmed(parts.0.as_str()).as_str()) && is_good_name(
                    trimmed(parts.1.as_str()).as_str(),
                ),
                None => is_good_name(target.as_str()),
            };
            if plain && !begins_with(pair.1.as_str(), '=') {
                Some((target, trimmed(pair.1.as_str())))
            } else {
                None
            }
        },
    }
}

fn read_plain_head(line: &str) -> (r: Result<Head, String>)
    ensures
        told_head(r) == plain_head(line@),
{
    if let Some(rest) = strip(line, "if ") {
        return match read_condition(rest.as_str()) {
            Ok(e) => Ok(Head::If(e)),
            Err(error) => Err(error),
        };
    }
    if let Some(rest) = strip(line, "while ") {
        return match read_condition(rest.as_str()) {
            Ok(e) => Ok(Head::While(e)),
            Err(error) => Err(error),
        };
    }
    if let Some(rest) = strip(line, "for ") {
        return read_for_head(rest.as_str());
    }
    if same(line, "try:") {
        Ok(Head::Try)
    } else if same(line, "break") {
        Ok(Head::Simple(Stmt::Break))
    } else if same(line, "continue") {
        Ok(Head::Simple(Stmt::Continue))
    } else if same(line, "return") {
        Ok(Head::Simple(Stmt::Return(None)))
    } else {
        read_word_head(line)
    }
}

fn read_word_head(line: &str) -> (r: Result<Head, String>)
    ensures
        told_head(r) == word_head(line@),
{
    if let Some(rest) = strip(line, "say ") {
        return match parse_expression(rest.as_str()) {
            Ok(e) => Ok(Head::Simple(Stmt::Say(e))),
            Err(error) => Err(error),
        };
    }
    if let Some(rest) = strip(line, "raise ") {
        return match parse_expression(rest.as_str()) {
            Ok(e) => Ok(Head::Simple(Stmt::Raise(e))),
            Err(error) => Err(error),
        };
    }
    if let Some(rest) = strip(line, "return ") {
        return match parse_expression(rest.as_str()) {
            Ok(e) => Ok(Head::Simple(Stmt::Return(Some(e)))),
            Err(error) => Err(error),
        };
    }
    if let Some(rest) = strip(line, "module ") {
        return Ok(Head::Simple(Stmt::Module { name: rest }));
    }
    if let Some(rest) = strip(line, "import ") {
        return Ok(Head::Simple(Stmt::Import { path: rest, explicit: true }));
    }
    if let Some(rest) = strip(line, "use ") {
        return Ok(
            Head::Simple(
                if file_is_named(rest.as_str()) {
                    Stmt::Import { path: rest, explicit: false }
                } else {
                    Stmt::Module { name: rest }
                },
            ),
        );
    }
    match read_assignment(line) {
        Some(pair) => match parse_expression(pair.1.as_str()) {
            Ok(e) => Ok(Head::Simple(Stmt::Assignment { name: pair.0, value: e })),
            Err(error) => Err(error),
        },
        None => match parse_expression(line) {
            Ok(e) => Ok(Head::Simple(Stmt::Expression(e))),
            Err(error) => Err(error),
        },
    }
}

fn read_visible(line: &str) -> (r: (String, String))
    ensures
        (r.0@, r.1@) == visible(line@),
{
    if let Some(rest) = strip(line, "public ") {
        return ("public".to_owned(), rest);
    }
    if let Some(rest) = strip(line, "private ") {
        return ("private".to_owned(), rest);
    }
    if let Some(rest) = strip(line, "protected ") {
        return ("protected".to_owned(), rest);
    }
    ("public".to_owned(), line.to_owned())
}

fn read_line(line: &str, class: bool) -> (r: Result<Head, String>)
    ensures
        told_head(r) == head(line@, class),
{
    let (visibility, inner) = if class {
        read_visible(line)
    } else {
        ("public".to_owned(), line.to_owned())
    };
    let (exported, own) = match strip(inner.as_str(), "export ") {
        Some(rest) => (true, rest),
        None => (false, inner),
    };
    if let Some(rest) = strip(own.as_str(), "let ") {
        return read_declaration(rest.as_str(), class, visibility, exported);
    }
    if let Some(rest) = strip(own.as_str(), "async fn ") {
        return read_function_head(rest.as_str(), visibility, true, exported);
    }
    if let Some(rest) = strip(own.as_str(), "fn ") {
        return read_function_head(rest.as_str(), visibility, false, exported);
    }
    if let Some(rest) = strip(own.as_str(), "def ") {
        return read_function_head(rest.as_str(), visibility, false, exported);
    }
    if let Some(rest) = strip(own.as_str(), "class ") {
        return read_class_head(rest.as_str());
    }
    if exported {
        return fail("export expects a declaration or a function");
    }
    read_plain_head(own.as_str())
}

fn read_catch(line: &str) -> (r: Option<String>)
    ensures
        opt_text(r) == catch_name(line@),
{
    match strip(line, "catch ") {
        None => None,
        Some(rest) => match read_opened(rest.as_str()) {
            Ok(name) => if is_good_name(name.as_str()) {
                Some(name)
            } else {
                None
            },
            Err(_) => None,
        },
    }
}

fn read_catch_at(lines: &Vec<String>, i: usize) -> (r: Option<String>)
    ensures
        opt_text(r) == catch_at(texts(lines@), i as int),
{
    if i < lines.len() {
        read_catch(trimmed(lines[i].as_str()).as_str())
    } else {
        None
    }
}

pub open spec fn told_program(r: Result<Program, String>) -> Result<Seq<StmtM>, Str> {
    match r {
        Ok(p) => Ok(p@),
        Err(error) => Err(error@),
    }
}

fn parse_statements(lines: &Vec<String>, depth: usize, class: bool) -> (r: Result<Program, String>)
    ensures
        told_program(r) == statements(texts(lines@), 0, depth as nat, class, Seq::empty()),
    decreases depth,
{
    let ghost all = texts(lines@);
    let mut done: Vec<Stmt> = Vec::new();
    let mut i: usize = 0;
    assert(views(done@) =~= Seq::<StmtM>::empty());
    while i < lines.len()
        invariant
            i <= lines@.len(),
            all == texts(lines@),
            statements(all, 0, depth as nat, class, Seq::empty()) == statements(
                all,
                i as int,
                depth as nat,
                class,
                views(done@),
            ),
        decreases lines.len() - i,
    {
        assert(all[i as int] == lines@[i as int]@);
        let line = trimmed(lines[i].as_str());
        if is_blank_text(line.as_str()) || begins_with(line.as_str(), '#') {
            i += 1;
            continue ;
        }
        let raw = chars_of(lines[i].as_str());
        proof {
            if raw@.len() == 0 {
                lemma_trim_empty(raw@);
            }
        }
        if raw[0] == ' ' || raw[0] == '\t' {
            return fail("unexpected indentation");
        }
        let opening = match read_line(line.as_str(), class) {
            Err(error) => {
                return Err(error);
            },
            Ok(opening) => opening,
        };
        let ghost before = views(done@);
        if let Head::Simple(statement) = opening {
            done.push(statement);
            assert(views(done@) =~= before.push(statement@));
            i += 1;
            continue ;
        }
        if depth == 0 {
            return fail("block nesting limit exceeded");
        }
        let (inside, end) = indented(lines, i + 1);
        proof {
            lemma_block_end(all, i + 1);
        }
        let is_class = match &opening {
            Head::Class(_, _) => true,
            _ => false,
        };
        let body = match parse_statements(&inside, depth - 1, is_class) {
            Err(error) => {
                return Err(error);
            },
            Ok(body) => body,
        };
        match opening {
            Head::Simple(_) => {
                i += 1;
            },
            Head::If(test) => {
                let statement;
                if end < lines.len() && same(trimmed(lines[end].as_str()).as_str(), "else:") {
                    proof {
                        lemma_block_end(all, end + 1);
                    }
                    let (other_lines, other_end) = indented(lines, end + 1);
                    let other = match parse_statements(&other_lines, depth - 1, false) {
                        Err(error) => {
                            return Err(error);
                        },
                        Ok(other) => other,
                    };
                    statement =
                    Stmt::If { condition: test, then_branch: body, else_branch: Some(other) };
                    i = other_end;
                } else {
                    statement = Stmt::If { condition: test, then_branch: body, else_branch: None };
                    i = end;
                }
                done.push(statement);
                assert(views(done@) =~= before.push(statement@));
            },
            Head::While(test) => {
                let statement = Stmt::While { condition: test, body };
                done.push(statement);
                assert(views(done@) =~= before.push(statement@));
                i = end;
            },
            Head::For(binding, iterable) => {
                let statement = Stmt::For { binding, iterable, body };
                done.push(statement);
                assert(views(done@) =~= before.push(statement@));
                i = end;
            },
            Head::Try => {
                let binding = match read_catch_at(lines, end) {
                    None => {
                        return fail("try expects a catch block");
                    },
                    Some(binding) => binding,
                };
                proof {
                    lemma_block_end(all, end + 1);
                }
                let (catch_lines, catch_end) = indented(lines, end + 1);
                let catch_body = match parse_statements(&catch_lines, depth - 1, false) {
                    Err(error) => {
                        return Err(error);
                    },
                    Ok(catch_body) => catch_body,
                };
                let statement = Stmt::TryCatch { body, binding, catch_body };
                done.push(statement);
                assert(views(done@) =~= before.push(statement@));
                i = catch_end;
            },
            Head::Function {
                name,
                type_params,
                params,
                return_type,
                visibility,
                is_async,
                exported,
            } => {
                let statement = Stmt::Function {
                    name,
                    type_params,
                    params,
                    return_type,
                    body: Rc::new(body),
                    visibility,
                    is_async,
                    exported,
                };
                done.push(statement);
                assert(views(done@) =~= before.push(statement@));
                i = end;
            },
            Head::Class(name, base) => {
                let statement = Stmt::Class { name, base, body };
                done.push(statement);
                assert(views(done@) =~= before.push(statement@));
                i = end;
            },
        }
    }
    let program = Program { statements: done };
    proof {
        lemma_program(&program);
    }
    Ok(program)
}

proof fn lemma_trim_empty(s: Str)
    requires
        s.len() == 0,
    ensures
        trim(s).len() == 0,
{
}

/// Parses a program.
pub fn parse_program(source: &str) -> (r: Result<Program, String>)
    ensures
        told_program(r) == parsed_program(source@),
{
    match validate_source_layout(source) {
        Err(error) => {
            return Err(error);
        },
        Ok(_) => {},
    }
    let lines = source_lines(source);
    parse_statements(&lines, MAX_BLOCK_DEPTH, false)
}

} // verus!
