//! Source layout: lines, indentation and indented blocks.

use crate::text::{chars_of, decimal, has_prefix, join3, length_text, split, split_text, starts_with,
    text_of, texts, trim, trim_start, trimmed, without_leading_spaces, Str};
use crate::value::told_unit;
use crate::world::{enter_level, ExecutionContext, World};
use vstd::prelude::*;

verus! {

pub const MAX_SOURCE_LINES: usize = 100_000;

/// A line without the carriage return before its line feed.
pub open spec fn without_return(s: Str) -> Str {
    if s.len() > 0 && s.last() == '\r' {
        s.drop_last()
    } else {
        s
    }
}

/// The lines of a source text. A line feed ends a line, with or without a carriage return
/// before it; the last line needs none.
pub open spec fn lines_of(s: Str) -> Seq<Str> {
    let parts = split(s, "\n"@);
    let count = if parts.last().len() == 0 {
        (parts.len() - 1) as nat
    } else {
        parts.len()
    };
    Seq::new(
        count,
        |i: int|
            if i < parts.len() - 1 {
                without_return(parts[i])
            } else {
                parts[i]
            },
    )
}

pub fn source_lines(s: &str) -> (r: Vec<String>)
    ensures
        texts(r@) == lines_of(s@),
{
    let parts = split_text(s, "\n");
    let ghost all = split(s@, "\n"@);
    assert(all.len() >= 1);
    let mut out: Vec<String> = Vec::new();
    let mut i: usize = 0;
    assert(texts(parts@).len() == parts@.len());
    while i < parts.len() - 1
        invariant
            i <= parts.len() - 1,
            parts@.len() >= 1,
            texts(parts@) == all,
            out@.len() == i,
            forall|j: int| 0 <= j < i ==> (#[trigger] out@[j])@ == without_return(all[j]),
        decreases parts.len() - i,
    {
        let v = chars_of(parts[i].as_str());
        assert(all[i as int] == v@);
        if v.len() > 0 && v[v.len() - 1] == '\r' {
            let kept = text_of(&v, 0, v.len() - 1);
            assert(kept@ =~= v@.drop_last());
            out.push(kept);
        } else {
            out.push(parts[i].clone());
        }
        i += 1;
    }
    let last = chars_of(parts[i].as_str());
    assert(all.last() == parts@[i as int]@);
    if last.len() > 0 {
        out.push(parts[i].clone());
    }
    assert(texts(out@) =~= lines_of(s@));
    out
}

// ---------------------------------------------------------------------------
// Indentation
// ---------------------------------------------------------------------------

pub open spec fn is_blank(c: char) -> bool {
    c == ' ' || c == '\t'
}

/// The end of the run of spaces and tabs that starts at `i`.
pub open spec fn indent_end(s: Str, i: int) -> int
    decreases s.len() - i,
{
    if 0 <= i < s.len() && is_blank(s[i]) {
        indent_end(s, i + 1)
    } else {
        i
    }
}

/// The spaces and tabs at the start of a line.
pub open spec fn indent(s: Str) -> Str {
    s.take(indent_end(s, 0))
}

/// Whether a file is indented with tabs or with spaces.
#[derive(Clone, Copy, PartialEq, Eq, Structural)]
pub enum Style {
    Tabs,
    Spaces,
}

/// Tests the lines from number `i` on; `style` is what the lines before it use.
pub open spec fn indentation_from(lines: Seq<Str>, i: int, style: Option<Style>) -> Result<(), Str>
    decreases lines.len() - i,
{
    if i < 0 || i >= lines.len() {
        Ok(())
    } else {
        let prefix = indent(lines[i]);
        let spaces = prefix.contains(' ');
        let tabs = prefix.contains('\t');
        let current = if tabs {
            Style::Tabs
        } else {
            Style::Spaces
        };
        if prefix.len() == 0 {
            indentation_from(lines, i + 1, style)
        } else if spaces && tabs {
            Err("mixed indentation at line "@ + decimal(i + 1)
                + ": use spaces or tabs, not both"@)
        } else if spaces && prefix.len() % 4 != 0 {
            Err("invalid indentation at line "@ + decimal(i + 1)
                + ": spaces must be groups of four"@)
        } else if style is Some && style != Some(current) {
            Err("mixed indentation at line "@ + decimal(i + 1)
                + ": file uses both tabs and spaces"@)
        } else {
            indentation_from(lines, i + 1, Some(current))
        }
    }
}

/// What the indentation rules say of a file: one kind of indentation, spaces in groups of four.
pub open spec fn indentation(lines: Seq<Str>) -> Result<(), Str> {
    indentation_from(lines, 0, None)
}

pub open spec fn line_limit_error() -> Str {
    "source line limit exceeded: maximum is "@ + decimal(MAX_SOURCE_LINES as int)
}

pub open spec fn layout(lines: Seq<Str>) -> Result<(), Str> {
    match indentation(lines) {
        Err(error) => Err(error),
        Ok(_) => if lines.len() > MAX_SOURCE_LINES {
            Err(line_limit_error())
        } else {
            Ok(())
        },
    }
}

fn line_error(what: &str, index: usize, why: &str) -> (r: String)
    requires
        index < usize::MAX,
    ensures
        r@ == what@ + decimal(index + 1) + why@,
{
    join3(what, length_text(index + 1).as_str(), why)
}

pub fn validate_indentation(lines: &Vec<String>) -> (r: Result<(), String>)
    ensures
        told_unit(r) == indentation(texts(lines@)),
{
    let mut style: Option<Style> = None;
    let mut i: usize = 0;
    while i < lines.len()
        invariant
            i <= lines@.len(),
            indentation(texts(lines@)) == indentation_from(texts(lines@), i as int, style),
        decreases lines.len() - i,
    {
        let v = chars_of(lines[i].as_str());
        assert(texts(lines@)[i as int] == v@);
        let mut n: usize = 0;
        let mut spaces: bool = false;
        let mut tabs: bool = false;
        while n < v.len() && (v[n] == ' ' || v[n] == '\t')
            invariant
                n <= v@.len(),
                indent_end(v@, 0) == indent_end(v@, n as int),
                spaces == v@.take(n as int).contains(' '),
                tabs == v@.take(n as int).contains('\t'),
            decreases v.len() - n,
        {
            let ghost taken = v@.take(n as int);
            let ghost more = v@.take(n + 1);
            assert(more =~= taken.push(v@[n as int]));
            assert(more[n as int] == v@[n as int]);
            assert(forall|c: char| taken.contains(c) ==> more.contains(c)) by {
                assert forall|c: char| taken.contains(c) implies more.contains(c) by {
                    let k = choose|k: int| 0 <= k < taken.len() && taken[k] == c;
                    assert(more[k] == c);
                }
            }
            if v[n] == ' ' {
                spaces = true;
            } else {
                tabs = true;
            }
            n += 1;
        }
        let ghost prefix = indent(v@);
        assert(prefix == v@.take(n as int));
        if n == 0 {
            i += 1;
            continue ;
        }
        if spaces && tabs {
            return Err(
                line_error(
                    "mixed indentation at line ",
                    i,
                    ": use spaces or tabs, not both",
                ),
            );
        }
        if spaces && n % 4 != 0 {
            return Err(
                line_error(
                    "invalid indentation at line ",
                    i,
                    ": spaces must be groups of four",
                ),
            );
        }
        let current: Style = if tabs {
            Style::Tabs
        } else {
            Style::Spaces
        };
        if let Some(previous) = style {
            if previous != current {
                return Err(
                    line_error(
                        "mixed indentation at line ",
                        i,
                        ": file uses both tabs and spaces",
                    ),
                );
            }
        }
        style = Some(current);
        i += 1;
    }
    Ok(())
}

fn validate_lines(lines: &Vec<String>) -> (r: Result<(), String>)
    ensures
        told_unit(r) == layout(texts(lines@)),
{
    match validate_indentation(lines) {
        Err(error) => Err(error),
        Ok(_) => if lines.len() > MAX_SOURCE_LINES {
            Err(
                crate::text::join2(
                    "source line limit exceeded: maximum is ",
                    length_text(MAX_SOURCE_LINES).as_str(),
                ),
            )
        } else {
            Ok(())
        },
    }
}

/// Tests the layout of a source text before it is parsed.
pub fn validate_source_layout(source: &str) -> (r: Result<(), String>)
    ensures
        told_unit(r) == layout(lines_of(source@)),
{
    validate_lines(&source_lines(source))
}

/// Whether the lines can be executed now: their layout first, then the depth of execution.
pub open spec fn entered(lines: Seq<Str>, w: World) -> (Result<(), Str>, World) {
    match layout(lines) {
        Err(error) => (Err(error), w),
        Ok(_) => enter_level(w),
    }
}

/// Enters one level of execution for the given lines. The caller leaves the level again.
pub fn enter_execution(lines: &Vec<String>, context: &mut ExecutionContext) -> (r: Result<
    (),
    String,
>)
    ensures
        (told_unit(r), final(context)@) == entered(texts(lines@), old(context)@),
{
    match validate_lines(lines) {
        Err(error) => Err(error),
        Ok(_) => context.enter_level(),
    }
}

// ---------------------------------------------------------------------------
// Indented blocks
// ---------------------------------------------------------------------------

/// A line with one level of indentation taken off.
pub open spec fn dedented(s: Str) -> Str {
    if has_prefix(s, "\t"@) {
        s.skip(1)
    } else if has_prefix(s, "    "@) {
        s.skip(4)
    } else {
        s
    }
}

/// How a line stands to the block before it.
pub enum Membership {
    Empty,
    Comment,
    Inside,
    Outside,
}

pub open spec fn membership(s: Str) -> Membership {
    if trim(s).len() == 0 {
        Membership::Empty
    } else if has_prefix(s, " "@) || has_prefix(s, "\t"@) {
        Membership::Inside
    } else if has_prefix(trim_start(s), "#"@) {
        Membership::Comment
    } else {
        Membership::Outside
    }
}

/// What a line contributes to the block that it belongs to.
pub open spec fn block_line(s: Str) -> Str {
    match membership(s) {
        Membership::Empty => Seq::empty(),
        Membership::Comment => trim(s),
        _ => dedented(s),
    }
}

/// The end of the indented block that starts at line `i`.
pub open spec fn block_end(lines: Seq<Str>, i: int) -> int
    decreases lines.len() - i,
{
    if 0 <= i < lines.len() && !(membership(lines[i]) is Outside) {
        block_end(lines, i + 1)
    } else {
        i
    }
}

/// The indented block that starts at line `i`, one level of indentation taken off.
pub open spec fn block(lines: Seq<Str>, i: int) -> Seq<Str> {
    Seq::new((block_end(lines, i) - i) as nat, |k: int| block_line(lines[i + k]))
}

pub proof fn lemma_block_end(lines: Seq<Str>, i: int)
    requires
        0 <= i,
    ensures
        i <= block_end(lines, i),
        i <= lines.len() ==> block_end(lines, i) <= lines.len(),
    decreases lines.len() - i,
{
    if i < lines.len() && !(membership(lines[i]) is Outside) {
        lemma_block_end(lines, i + 1);
    }
}

fn dedent(line: &str) -> (r: String)
    ensures
        r@ == dedented(line@),
{
    let v = chars_of(line);
    proof {
        reveal_strlit("\t");
        reveal_strlit("    ");
    }
    if starts_with(line, "\t") {
        let r = text_of(&v, 1, v.len());
        assert(r@ =~= line@.skip(1));
        r
    } else if starts_with(line, "    ") {
        let r = text_of(&v, 4, v.len());
        assert(r@ =~= line@.skip(4));
        r
    } else {
        line.to_owned()
    }
}

fn classify(line: &str) -> (r: Membership)
    ensures
        r == membership(line@),
{
    let content = trimmed(line);
    if chars_of(content.as_str()).len() == 0 {
        Membership::Empty
    } else if starts_with(line, " ") || starts_with(line, "\t") {
        Membership::Inside
    } else if starts_with(without_leading_spaces(line).as_str(), "#") {
        Membership::Comment
    } else {
        Membership::Outside
    }
}

/// The indented block that starts at line `start`, and the line after it.
pub fn indented(lines: &Vec<String>, start: usize) -> (r: (Vec<String>, usize))
    ensures
        texts(r.0@) == block(texts(lines@), start as int),
        r.1 == block_end(texts(lines@), start as int),
        start <= r.1,
        start <= lines@.len() ==> r.1 <= lines@.len(),
{
    let mut i: usize = start;
    let mut body: Vec<String> = Vec::new();
    proof {
        lemma_block_end(texts(lines@), start as int);
    }
    while i < lines.len()
        invariant_except_break
            block_end(texts(lines@), start as int) == block_end(texts(lines@), i as int),
        invariant
            start <= i,
            start <= lines@.len() ==> i <= lines@.len(),
            body@.len() == i - start,
            forall|k: int|
                0 <= k < i - start ==> (#[trigger] body@[k])@ == block_line(
                    texts(lines@)[start + k],
                ),
        ensures
            block_end(texts(lines@), start as int) == i,
        decreases lines.len() - i,
    {
        let line = lines[i].as_str();
        assert(texts(lines@)[i as int] == line@);
        match classify(line) {
            Membership::Empty => {
                let empty = String::new();
                assert(empty@ =~= Seq::<char>::empty());
                body.push(empty);
            },
            Membership::Comment => {
                body.push(trimmed(line));
            },
            Membership::Inside => {
                body.push(dedent(line));
            },
            Membership::Outside => {
                break ;
            },
        }
        i += 1;
    }
    assert(texts(body@) =~= block(texts(lines@), start as int));
    (body, i)
}

} // verus!
