//! How source lines make up programs: indentation, blocks, what a line says, and how lines are run
//! one by one.

use crate::annotations::{checked, generic_args, generic_parts};
use crate::ast::{ExprM, ParamM, StmtM};
use crate::classes::{class_key, method_key, parent_key};
use crate::layout::{
    block, block_end, indent, indentation_from, is_blank, layout, lines_of, membership, Style,
};
use crate::lines::{
    bare, class_defined, class_names, definition_of, function_defined, method_defined,
    methods_defined, shown_line, stripped,
};
use crate::modules::import_path;
use crate::program::{
    annotated, assignment, behind, catch_at, class_head, condition, declaration, for_head,
    function_head, good_name, head, names_file, opened, parameter, parsed_program, piece_stop,
    signature, statements, visible, HeadM,
};
use crate::registry::{inherited, method_params, without_prefixes};
use crate::semantics::{
    assign_line, evaluated, for_line, for_lines, if_line, let_line, line, line_assigned,
    line_declared, line_text, lines_from, load_module, module_ended, module_file, module_run,
    propagated_text, return_line, run_lines, FlowM, OutcomeM, Ran, Stepped,
};
use crate::syntax::parsed_expression;
use crate::table::{
    get, lemma_get_put_other, lemma_get_put_same, lemma_put_ordered, ordered, put, Rows,
};
use crate::text::{cut, has_prefix, has_suffix, trim, trim_start, words, Str};
use crate::value::{truthy, Fun, Val};
use crate::webcheck::leads;
use crate::world::World;
use vstd::prelude::*;

verus! {

// ---------------------------------------------------------------------------
// Indentation
// ---------------------------------------------------------------------------

/// Whether a line is indented with spaces.
pub open spec fn uses_spaces(s: Str) -> bool {
    indent(s).contains(' ')
}

/// Whether a line is indented with tabs.
pub open spec fn uses_tabs(s: Str) -> bool {
    indent(s).contains('\t')
}

proof fn lemma_indent(s: Str, i: int)
    requires
        0 <= i <= s.len(),
    ensures
        i <= crate::layout::indent_end(s, i) <= s.len(),
        forall|k: int| i <= k < crate::layout::indent_end(s, i) ==> is_blank(#[trigger] s[k]),
    decreases s.len() - i,
{
    if i < s.len() && is_blank(s[i]) {
        lemma_indent(s, i + 1);
    }
}

proof fn lemma_indentation(lines: Seq<Str>, i: int, style: Option<Style>, k: int)
    requires
        0 <= i <= k < lines.len(),
        indentation_from(lines, i, style) is Ok,
    ensures
        !(uses_spaces(lines[k]) && uses_tabs(lines[k])),
        uses_spaces(lines[k]) ==> indent(lines[k]).len() % 4 == 0,
        style == Some(Style::Spaces) ==> !uses_tabs(lines[k]),
        style == Some(Style::Tabs) ==> !uses_spaces(lines[k]),
    decreases lines.len() - i,
{
    let prefix = indent(lines[i]);
    if prefix.len() > 0 {
        lemma_indent(lines[i], 0);
        assert(is_blank(lines[i][0]));
        assert(prefix[0] == lines[i][0]);
        assert(prefix.contains(prefix[0]));
    }
    if i < k {
        let next = if prefix.len() == 0 {
            style
        } else if uses_tabs(lines[i]) {
            Some(Style::Tabs)
        } else {
            Some(Style::Spaces)
        };
        lemma_indentation(lines, i + 1, next, k);
    }
}

proof fn lemma_no_mix(lines: Seq<Str>, i: int, style: Option<Style>, j: int, k: int)
    requires
        0 <= i <= j < k < lines.len(),
        indentation_from(lines, i, style) is Ok,
    ensures
        !(uses_spaces(lines[j]) && uses_tabs(lines[k])),
        !(uses_tabs(lines[j]) && uses_spaces(lines[k])),
    decreases lines.len() - i,
{
    let prefix = indent(lines[i]);
    let next = if prefix.len() == 0 {
        style
    } else if uses_tabs(lines[i]) {
        Some(Style::Tabs)
    } else {
        Some(Style::Spaces)
    };
    lemma_indentation(lines, i, style, i);
    if i == j {
        lemma_indentation(lines, i + 1, next, k);
    } else {
        lemma_no_mix(lines, i + 1, next, j, k);
    }
}

/// A source whose layout passes is indented with spaces in groups of four or with tabs, never with
/// both, in one line or in two; it has at most 100000 lines.
pub proof fn law_indentation_is_of_one_kind(lines: Seq<Str>, j: int, k: int)
    requires
        layout(lines) is Ok,
        0 <= j < k < lines.len(),
    ensures
        lines.len() <= 100_000,
        !(uses_spaces(lines[j]) && uses_tabs(lines[j])),
        uses_spaces(lines[j]) ==> indent(lines[j]).len() % 4 == 0,
        !(uses_spaces(lines[j]) && uses_tabs(lines[k])),
        !(uses_tabs(lines[j]) && uses_spaces(lines[k])),
{
    lemma_indentation(lines, 0, None, j);
    lemma_no_mix(lines, 0, None, j, k);
}

proof fn lemma_good_indentation(lines: Seq<Str>, i: int, style: Option<Style>)
    requires
        0 <= i <= lines.len(),
        style is None || style == Some(Style::Spaces),
        forall|k: int|
            i <= k < lines.len() ==> !uses_tabs(#[trigger] lines[k]) && indent(lines[k]).len() % 4
                == 0,
    ensures
        indentation_from(lines, i, style) is Ok,
    decreases lines.len() - i,
{
    if i < lines.len() {
        assert(!uses_tabs(lines[i]));
        lemma_good_indentation(lines, i + 1, style);
        lemma_good_indentation(lines, i + 1, Some(Style::Spaces));
    }
}

/// A source of at most 100000 lines that is indented with spaces in groups of four passes.
pub proof fn law_groups_of_four_spaces_pass(lines: Seq<Str>)
    requires
        lines.len() <= 100_000,
        forall|k: int|
            0 <= k < lines.len() ==> !uses_tabs(#[trigger] lines[k]) && indent(lines[k]).len() % 4
                == 0,
    ensures
        layout(lines) is Ok,
{
    lemma_good_indentation(lines, 0, None);
}

// ---------------------------------------------------------------------------
// Blocks
// ---------------------------------------------------------------------------

/// A line belongs to the block above it unless it begins with something other than a space, a tab
/// or a number sign.
pub proof fn law_blocks_hold_indented_lines(s: Str)
    ensures
        membership(s) is Outside <==> trim(s).len() > 0 && s[0] != ' ' && s[0] != '\t' && !leads(
            trim_start(s),
            '#',
        ),
{
    reveal_strlit(" ");
    reveal_strlit("\t");
    reveal_strlit("#");
    lemma_one(s, ' ', " "@);
    lemma_one(s, '\t', "\t"@);
    lemma_one(trim_start(s), '#', "#"@);
    if trim(s).len() > 0 {
        crate::wording::law_trimming(s);
        assert(s.len() > 0);
    }
}

proof fn lemma_one(s: Str, c: char, part: Str)
    requires
        part.len() == 1,
        part[0] == c,
    ensures
        has_prefix(s, part) <==> leads(s, c),
{
    if leads(s, c) {
        assert(s.subrange(0, 1) =~= part);
    }
    if has_prefix(s, part) {
        assert(s.subrange(0, 1)[0] == s[0]);
    }
}

proof fn lemma_block_ends(lines: Seq<Str>, i: int)
    requires
        0 <= i <= lines.len(),
    ensures
        i <= block_end(lines, i) <= lines.len(),
        forall|k: int|
            i <= k < block_end(lines, i) ==> !(membership(#[trigger] lines[k]) is Outside),
        block_end(lines, i) < lines.len() ==> membership(lines[block_end(lines, i)]) is Outside,
    decreases lines.len() - i,
{
    if i < lines.len() && !(membership(lines[i]) is Outside) {
        lemma_block_ends(lines, i + 1);
    }
}

/// A block goes from its first line up to the first line that does not belong to it, and one level
/// of indentation, four spaces or a tab, is taken off each of its lines.
pub proof fn law_blocks_end_at_the_first_line_outside(lines: Seq<Str>, i: int, k: int)
    requires
        0 <= i <= lines.len(),
    ensures
        i <= block_end(lines, i) <= lines.len(),
        block(lines, i).len() == block_end(lines, i) - i,
        i <= k < block_end(lines, i) ==> !(membership(lines[k]) is Outside),
        block_end(lines, i) < lines.len() ==> membership(lines[block_end(lines, i)]) is Outside,
        i <= k < block_end(lines, i) && membership(lines[k]) is Inside && leads(
            lines[k],
            '\t',
        ) ==> block(lines, i)[k - i] == lines[k].skip(1),
        i <= k < block_end(lines, i) && membership(lines[k]) is Inside && has_prefix(
            lines[k],
            "    "@,
        ) ==> block(lines, i)[k - i] == lines[k].skip(4),
{
    lemma_block_ends(lines, i);
    if i <= k < block_end(lines, i) {
        reveal_strlit("\t");
        reveal_strlit("    ");
        lemma_one(lines[k], '\t', "\t"@);
        if has_prefix(lines[k], "    "@) {
            assert(lines[k].subrange(0, 4)[0] == "    "@[0]);
            assert(lines[k][0] == ' ');
        }
    }
}

// ---------------------------------------------------------------------------
// What a line says
// ---------------------------------------------------------------------------

/// What an expression is made into, if it is one.
pub open spec fn ruled(value: Result<ExprM, Str>, make: spec_fn(ExprM) -> HeadM) -> Result<
    HeadM,
    Str,
> {
    match value {
        Ok(e) => Ok(make(e)),
        Err(error) => Err(error),
    }
}

proof fn lemma_apart(line: Str, word: Str, k: int)
    requires
        0 <= k < word.len(),
        k >= line.len() || line[k] != word[k],
    ensures
        !has_prefix(line, word),
{
    if has_prefix(line, word) {
        assert(line.subrange(0, word.len() as int)[k] == word[k]);
    }
}

proof fn lemma_behind(word: Str, rest: Str)
    ensures
        behind(word + rest, word) == Some(trim(rest)),
{
    let line = word + rest;
    assert(line.subrange(0, word.len() as int) =~= word);
    assert(line.skip(word.len() as int) =~= rest);
}

/// `let` declares a variable.
pub proof fn law_lines_with_let(rest: Str)
    ensures
        head("let "@ + rest, false) == declaration(trim(rest), false, "public"@, false),
{
    let line = "let "@ + rest;
    reveal_strlit("let ");
    lemma_behind("let "@, rest);
    reveal_strlit("export ");
    assert(line[0] == 'l' && "export "@[0] == 'e');
    lemma_apart(line, "export "@, 0);
}

/// `async fn` begins a function that is called asynchronously.
pub proof fn law_lines_with_async_fn(rest: Str)
    ensures
        head("async fn "@ + rest, false) == function_head(trim(rest), "public"@, true, false),
{
    let line = "async fn "@ + rest;
    reveal_strlit("async fn ");
    lemma_behind("async fn "@, rest);
    reveal_strlit("export ");
    assert(line[0] == 'a' && "export "@[0] == 'e');
    lemma_apart(line, "export "@, 0);
    reveal_strlit("let ");
    assert(line[0] == 'a' && "let "@[0] == 'l');
    lemma_apart(line, "let "@, 0);
}

/// `fn` begins a function.
pub proof fn law_lines_with_fn(rest: Str)
    ensures
        head("fn "@ + rest, false) == function_head(trim(rest), "public"@, false, false),
{
    let line = "fn "@ + rest;
    reveal_strlit("fn ");
    lemma_behind("fn "@, rest);
    reveal_strlit("export ");
    assert(line[0] == 'f' && "export "@[0] == 'e');
    lemma_apart(line, "export "@, 0);
    reveal_strlit("let ");
    assert(line[0] == 'f' && "let "@[0] == 'l');
    lemma_apart(line, "let "@, 0);
    reveal_strlit("async fn ");
    assert(line[0] == 'f' && "async fn "@[0] == 'a');
    lemma_apart(line, "async fn "@, 0);
}

/// `def` begins a function, as `fn` does.
pub proof fn law_lines_with_def(rest: Str)
    ensures
        head("def "@ + rest, false) == function_head(trim(rest), "public"@, false, false),
{
    let line = "def "@ + rest;
    reveal_strlit("def ");
    lemma_behind("def "@, rest);
    reveal_strlit("export ");
    assert(line[0] == 'd' && "export "@[0] == 'e');
    lemma_apart(line, "export "@, 0);
    reveal_strlit("let ");
    assert(line[0] == 'd' && "let "@[0] == 'l');
    lemma_apart(line, "let "@, 0);
    reveal_strlit("async fn ");
    assert(line[0] == 'd' && "async fn "@[0] == 'a');
    lemma_apart(line, "async fn "@, 0);
    reveal_strlit("fn ");
    assert(line[0] == 'd' && "fn "@[0] == 'f');
    lemma_apart(line, "fn "@, 0);
}

/// `class` begins a class.
pub proof fn law_lines_with_class(rest: Str)
    ensures
        head("class "@ + rest, false) == class_head(trim(rest)),
{
    let line = "class "@ + rest;
    reveal_strlit("class ");
    lemma_behind("class "@, rest);
    reveal_strlit("export ");
    assert(line[0] == 'c' && "export "@[0] == 'e');
    lemma_apart(line, "export "@, 0);
    reveal_strlit("let ");
    assert(line[0] == 'c' && "let "@[0] == 'l');
    lemma_apart(line, "let "@, 0);
    reveal_strlit("async fn ");
    assert(line[0] == 'c' && "async fn "@[0] == 'a');
    lemma_apart(line, "async fn "@, 0);
    reveal_strlit("fn ");
    assert(line[0] == 'c' && "fn "@[0] == 'f');
    lemma_apart(line, "fn "@, 0);
    reveal_strlit("def ");
    assert(line[0] == 'c' && "def "@[0] == 'd');
    lemma_apart(line, "def "@, 0);
}

/// `if` begins a branch with its condition.
pub proof fn law_lines_with_if(rest: Str)
    ensures
        head("if "@ + rest, false) == ruled(condition(trim(rest)), |e: ExprM| HeadM::If(e)),
{
    let line = "if "@ + rest;
    reveal_strlit("if ");
    lemma_behind("if "@, rest);
    reveal_strlit("export ");
    assert(line[0] == 'i' && "export "@[0] == 'e');
    lemma_apart(line, "export "@, 0);
    reveal_strlit("let ");
    assert(line[0] == 'i' && "let "@[0] == 'l');
    lemma_apart(line, "let "@, 0);
    reveal_strlit("async fn ");
    assert(line[0] == 'i' && "async fn "@[0] == 'a');
    lemma_apart(line, "async fn "@, 0);
    reveal_strlit("fn ");
    assert(line[0] == 'i' && "fn "@[0] == 'f');
    lemma_apart(line, "fn "@, 0);
    reveal_strlit("def ");
    assert(line[0] == 'i' && "def "@[0] == 'd');
    lemma_apart(line, "def "@, 0);
    reveal_strlit("class ");
    assert(line[0] == 'i' && "class "@[0] == 'c');
    lemma_apart(line, "class "@, 0);
}

/// `while` begins a loop with its condition.
pub proof fn law_lines_with_while(rest: Str)
    ensures
        head("while "@ + rest, false) == ruled(condition(trim(rest)), |e: ExprM| HeadM::While(e)),
{
    let line = "while "@ + rest;
    reveal_strlit("while ");
    lemma_behind("while "@, rest);
    reveal_strlit("export ");
    assert(line[0] == 'w' && "export "@[0] == 'e');
    lemma_apart(line, "export "@, 0);
    reveal_strlit("let ");
    assert(line[0] == 'w' && "let "@[0] == 'l');
    lemma_apart(line, "let "@, 0);
    reveal_strlit("async fn ");
    assert(line[0] == 'w' && "async fn "@[0] == 'a');
    lemma_apart(line, "async fn "@, 0);
    reveal_strlit("fn ");
    assert(line[0] == 'w' && "fn "@[0] == 'f');
    lemma_apart(line, "fn "@, 0);
    reveal_strlit("def ");
    assert(line[0] == 'w' && "def "@[0] == 'd');
    lemma_apart(line, "def "@, 0);
    reveal_strlit("class ");
    assert(line[0] == 'w' && "class "@[0] == 'c');
    lemma_apart(line, "class "@, 0);
    reveal_strlit("if ");
    assert(line[0] == 'w' && "if "@[0] == 'i');
    lemma_apart(line, "if "@, 0);
}

/// `for` begins a loop over a list.
pub proof fn law_lines_with_for(rest: Str)
    ensures
        head("for "@ + rest, false) == for_head(trim(rest)),
{
    let line = "for "@ + rest;
    reveal_strlit("for ");
    lemma_behind("for "@, rest);
    reveal_strlit("export ");
    assert(line[0] == 'f' && "export "@[0] == 'e');
    lemma_apart(line, "export "@, 0);
    reveal_strlit("let ");
    assert(line[0] == 'f' && "let "@[0] == 'l');
    lemma_apart(line, "let "@, 0);
    reveal_strlit("async fn ");
    assert(line[0] == 'f' && "async fn "@[0] == 'a');
    lemma_apart(line, "async fn "@, 0);
    reveal_strlit("fn ");
    assert(line[1] == 'o' && "fn "@[1] == 'n');
    lemma_apart(line, "fn "@, 1);
    reveal_strlit("def ");
    assert(line[0] == 'f' && "def "@[0] == 'd');
    lemma_apart(line, "def "@, 0);
    reveal_strlit("class ");
    assert(line[0] == 'f' && "class "@[0] == 'c');
    lemma_apart(line, "class "@, 0);
    reveal_strlit("if ");
    assert(line[0] == 'f' && "if "@[0] == 'i');
    lemma_apart(line, "if "@, 0);
    reveal_strlit("while ");
    assert(line[0] == 'f' && "while "@[0] == 'w');
    lemma_apart(line, "while "@, 0);
}

/// `say` says the value of an expression.
pub proof fn law_lines_with_say(rest: Str)
    ensures
        head("say "@ + rest, false) == ruled(parsed_expression(trim(rest)), |e: ExprM| HeadM::Simple(StmtM::Say(e))),
{
    let line = "say "@ + rest;
    reveal_strlit("say ");
    lemma_behind("say "@, rest);
    reveal_strlit("export ");
    assert(line[0] == 's' && "export "@[0] == 'e');
    lemma_apart(line, "export "@, 0);
    reveal_strlit("let ");
    assert(line[0] == 's' && "let "@[0] == 'l');
    lemma_apart(line, "let "@, 0);
    reveal_strlit("async fn ");
    assert(line[0] == 's' && "async fn "@[0] == 'a');
    lemma_apart(line, "async fn "@, 0);
    reveal_strlit("fn ");
    assert(line[0] == 's' && "fn "@[0] == 'f');
    lemma_apart(line, "fn "@, 0);
    reveal_strlit("def ");
    assert(line[0] == 's' && "def "@[0] == 'd');
    lemma_apart(line, "def "@, 0);
    reveal_strlit("class ");
    assert(line[0] == 's' && "class "@[0] == 'c');
    lemma_apart(line, "class "@, 0);
    reveal_strlit("if ");
    assert(line[0] == 's' && "if "@[0] == 'i');
    lemma_apart(line, "if "@, 0);
    reveal_strlit("while ");
    assert(line[0] == 's' && "while "@[0] == 'w');
    lemma_apart(line, "while "@, 0);
    reveal_strlit("for ");
    assert(line[0] == 's' && "for "@[0] == 'f');
    lemma_apart(line, "for "@, 0);
    reveal_strlit("try:");
    assert(line[0] == 's' && "try:"@[0] == 't');
    reveal_strlit("break");
    assert(line[0] == 's' && "break"@[0] == 'b');
    reveal_strlit("continue");
    assert(line[0] == 's' && "continue"@[0] == 'c');
    reveal_strlit("return");
    assert(line[0] == 's' && "return"@[0] == 'r');
}

/// `raise` raises the value of an expression.
pub proof fn law_lines_with_raise(rest: Str)
    ensures
        head("raise "@ + rest, false) == ruled(parsed_expression(trim(rest)), |e: ExprM| HeadM::Simple(StmtM::Raise(e))),
{
    let line = "raise "@ + rest;
    reveal_strlit("raise ");
    lemma_behind("raise "@, rest);
    reveal_strlit("export ");
    assert(line[0] == 'r' && "export "@[0] == 'e');
    lemma_apart(line, "export "@, 0);
    reveal_strlit("let ");
    assert(line[0] == 'r' && "let "@[0] == 'l');
    lemma_apart(line, "let "@, 0);
    reveal_strlit("async fn ");
    assert(line[0] == 'r' && "async fn "@[0] == 'a');
    lemma_apart(line, "async fn "@, 0);
    reveal_strlit("fn ");
    assert(line[0] == 'r' && "fn "@[0] == 'f');
    lemma_apart(line, "fn "@, 0);
    reveal_strlit("def ");
    assert(line[0] == 'r' && "def "@[0] == 'd');
    lemma_apart(line, "def "@, 0);
    reveal_strlit("class ");
    assert(line[0] == 'r' && "class "@[0] == 'c');
    lemma_apart(line, "class "@, 0);
    reveal_strlit("if ");
    assert(line[0] == 'r' && "if "@[0] == 'i');
    lemma_apart(line, "if "@, 0);
    reveal_strlit("while ");
    assert(line[0] == 'r' && "while "@[0] == 'w');
    lemma_apart(line, "while "@, 0);
    reveal_strlit("for ");
    assert(line[0] == 'r' && "for "@[0] == 'f');
    lemma_apart(line, "for "@, 0);
    reveal_strlit("say ");
    assert(line[0] == 'r' && "say "@[0] == 's');
    lemma_apart(line, "say "@, 0);
    reveal_strlit("try:");
    assert(line[0] == 'r' && "try:"@[0] == 't');
    reveal_strlit("break");
    assert(line[0] == 'r' && "break"@[0] == 'b');
    reveal_strlit("continue");
    assert(line[0] == 'r' && "continue"@[0] == 'c');
    reveal_strlit("return");
    assert(line[1] == 'a' && "return"@[1] == 'e');
}

/// `return` with an expression returns its value.
pub proof fn law_lines_with_return(rest: Str)
    ensures
        head("return "@ + rest, false) == ruled(parsed_expression(trim(rest)), |e: ExprM| HeadM::Simple(StmtM::Return(Some(e)))),
{
    let line = "return "@ + rest;
    reveal_strlit("return ");
    lemma_behind("return "@, rest);
    reveal_strlit("export ");
    assert(line[0] == 'r' && "export "@[0] == 'e');
    lemma_apart(line, "export "@, 0);
    reveal_strlit("let ");
    assert(line[0] == 'r' && "let "@[0] == 'l');
    lemma_apart(line, "let "@, 0);
    reveal_strlit("async fn ");
    assert(line[0] == 'r' && "async fn "@[0] == 'a');
    lemma_apart(line, "async fn "@, 0);
    reveal_strlit("fn ");
    assert(line[0] == 'r' && "fn "@[0] == 'f');
    lemma_apart(line, "fn "@, 0);
    reveal_strlit("def ");
    assert(line[0] == 'r' && "def "@[0] == 'd');
    lemma_apart(line, "def "@, 0);
    reveal_strlit("class ");
    assert(line[0] == 'r' && "class "@[0] == 'c');
    lemma_apart(line, "class "@, 0);
    reveal_strlit("if ");
    assert(line[0] == 'r' && "if "@[0] == 'i');
    lemma_apart(line, "if "@, 0);
    reveal_strlit("while ");
    assert(line[0] == 'r' && "while "@[0] == 'w');
    lemma_apart(line, "while "@, 0);
    reveal_strlit("for ");
    assert(line[0] == 'r' && "for "@[0] == 'f');
    lemma_apart(line, "for "@, 0);
    reveal_strlit("say ");
    assert(line[0] == 'r' && "say "@[0] == 's');
    lemma_apart(line, "say "@, 0);
    reveal_strlit("raise ");
    assert(line[1] == 'e' && "raise "@[1] == 'a');
    lemma_apart(line, "raise "@, 1);
    reveal_strlit("try:");
    assert(line[0] == 'r' && "try:"@[0] == 't');
    reveal_strlit("break");
    assert(line[0] == 'r' && "break"@[0] == 'b');
    reveal_strlit("continue");
    assert(line[0] == 'r' && "continue"@[0] == 'c');
    reveal_strlit("return");
    assert(line.len() >= 7 && "return"@.len() == 6);
}

/// `import` takes the exports of a module.
pub proof fn law_lines_with_import(rest: Str)
    ensures
        head("import "@ + rest, false) == Ok::<HeadM, Str>(HeadM::Simple(StmtM::Import { path: trim(rest), explicit: true })),
{
    let line = "import "@ + rest;
    reveal_strlit("import ");
    lemma_behind("import "@, rest);
    reveal_strlit("export ");
    assert(line[0] == 'i' && "export "@[0] == 'e');
    lemma_apart(line, "export "@, 0);
    reveal_strlit("let ");
    assert(line[0] == 'i' && "let "@[0] == 'l');
    lemma_apart(line, "let "@, 0);
    reveal_strlit("async fn ");
    assert(line[0] == 'i' && "async fn "@[0] == 'a');
    lemma_apart(line, "async fn "@, 0);
    reveal_strlit("fn ");
    assert(line[0] == 'i' && "fn "@[0] == 'f');
    lemma_apart(line, "fn "@, 0);
    reveal_strlit("def ");
    assert(line[0] == 'i' && "def "@[0] == 'd');
    lemma_apart(line, "def "@, 0);
    reveal_strlit("class ");
    assert(line[0] == 'i' && "class "@[0] == 'c');
    lemma_apart(line, "class "@, 0);
    reveal_strlit("if ");
    assert(line[1] == 'm' && "if "@[1] == 'f');
    lemma_apart(line, "if "@, 1);
    reveal_strlit("while ");
    assert(line[0] == 'i' && "while "@[0] == 'w');
    lemma_apart(line, "while "@, 0);
    reveal_strlit("for ");
    assert(line[0] == 'i' && "for "@[0] == 'f');
    lemma_apart(line, "for "@, 0);
    reveal_strlit("say ");
    assert(line[0] == 'i' && "say "@[0] == 's');
    lemma_apart(line, "say "@, 0);
    reveal_strlit("raise ");
    assert(line[0] == 'i' && "raise "@[0] == 'r');
    lemma_apart(line, "raise "@, 0);
    reveal_strlit("return ");
    assert(line[0] == 'i' && "return "@[0] == 'r');
    lemma_apart(line, "return "@, 0);
    reveal_strlit("module ");
    assert(line[0] == 'i' && "module "@[0] == 'm');
    lemma_apart(line, "module "@, 0);
    reveal_strlit("try:");
    assert(line[0] == 'i' && "try:"@[0] == 't');
    reveal_strlit("break");
    assert(line[0] == 'i' && "break"@[0] == 'b');
    reveal_strlit("continue");
    assert(line[0] == 'i' && "continue"@[0] == 'c');
    reveal_strlit("return");
    assert(line[0] == 'i' && "return"@[0] == 'r');
}

/// The lines `break`, `continue` and `return` are the statements of that name, and `try:` begins a
/// block whose errors are caught.
pub proof fn law_lines_of_one_word()
    ensures
        head("break"@, false) == Ok::<HeadM, Str>(HeadM::Simple(StmtM::Break)),
        head("continue"@, false) == Ok::<HeadM, Str>(HeadM::Simple(StmtM::Continue)),
        head("return"@, false) == Ok::<HeadM, Str>(HeadM::Simple(StmtM::Return(None))),
        head("try:"@, false) == Ok::<HeadM, Str>(HeadM::Try),
{
    reveal_strlit("export ");
    reveal_strlit("let ");
    reveal_strlit("async fn ");
    reveal_strlit("fn ");
    reveal_strlit("def ");
    reveal_strlit("class ");
    reveal_strlit("if ");
    reveal_strlit("while ");
    reveal_strlit("for ");
    reveal_strlit("try:");
    reveal_strlit("break");
    reveal_strlit("continue");
    reveal_strlit("return");
    assert("try:"@[0] == 't' && "export "@[0] == 'e');
    lemma_apart("try:"@, "export "@, 0);
    assert("try:"@[0] == 't' && "let "@[0] == 'l');
    lemma_apart("try:"@, "let "@, 0);
    assert("try:"@[0] == 't' && "async fn "@[0] == 'a');
    lemma_apart("try:"@, "async fn "@, 0);
    assert("try:"@[0] == 't' && "fn "@[0] == 'f');
    lemma_apart("try:"@, "fn "@, 0);
    assert("try:"@[0] == 't' && "def "@[0] == 'd');
    lemma_apart("try:"@, "def "@, 0);
    assert("try:"@[0] == 't' && "class "@[0] == 'c');
    lemma_apart("try:"@, "class "@, 0);
    assert("try:"@[0] == 't' && "if "@[0] == 'i');
    lemma_apart("try:"@, "if "@, 0);
    assert("try:"@[0] == 't' && "while "@[0] == 'w');
    lemma_apart("try:"@, "while "@, 0);
    assert("try:"@[0] == 't' && "for "@[0] == 'f');
    lemma_apart("try:"@, "for "@, 0);
    assert("break"@[0] == 'b' && "export "@[0] == 'e');
    lemma_apart("break"@, "export "@, 0);
    assert("break"@[0] == 'b' && "let "@[0] == 'l');
    lemma_apart("break"@, "let "@, 0);
    assert("break"@[0] == 'b' && "async fn "@[0] == 'a');
    lemma_apart("break"@, "async fn "@, 0);
    assert("break"@[0] == 'b' && "fn "@[0] == 'f');
    lemma_apart("break"@, "fn "@, 0);
    assert("break"@[0] == 'b' && "def "@[0] == 'd');
    lemma_apart("break"@, "def "@, 0);
    assert("break"@[0] == 'b' && "class "@[0] == 'c');
    lemma_apart("break"@, "class "@, 0);
    assert("break"@[0] == 'b' && "if "@[0] == 'i');
    lemma_apart("break"@, "if "@, 0);
    assert("break"@[0] == 'b' && "while "@[0] == 'w');
    lemma_apart("break"@, "while "@, 0);
    assert("break"@[0] == 'b' && "for "@[0] == 'f');
    lemma_apart("break"@, "for "@, 0);
    assert("continue"@[0] == 'c' && "export "@[0] == 'e');
    lemma_apart("continue"@, "export "@, 0);
    assert("continue"@[0] == 'c' && "let "@[0] == 'l');
    lemma_apart("continue"@, "let "@, 0);
    assert("continue"@[0] == 'c' && "async fn "@[0] == 'a');
    lemma_apart("continue"@, "async fn "@, 0);
    assert("continue"@[0] == 'c' && "fn "@[0] == 'f');
    lemma_apart("continue"@, "fn "@, 0);
    assert("continue"@[0] == 'c' && "def "@[0] == 'd');
    lemma_apart("continue"@, "def "@, 0);
    assert("continue"@[1] == 'o' && "class "@[1] == 'l');
    lemma_apart("continue"@, "class "@, 1);
    assert("continue"@[0] == 'c' && "if "@[0] == 'i');
    lemma_apart("continue"@, "if "@, 0);
    assert("continue"@[0] == 'c' && "while "@[0] == 'w');
    lemma_apart("continue"@, "while "@, 0);
    assert("continue"@[0] == 'c' && "for "@[0] == 'f');
    lemma_apart("continue"@, "for "@, 0);
    assert("return"@[0] == 'r' && "export "@[0] == 'e');
    lemma_apart("return"@, "export "@, 0);
    assert("return"@[0] == 'r' && "let "@[0] == 'l');
    lemma_apart("return"@, "let "@, 0);
    assert("return"@[0] == 'r' && "async fn "@[0] == 'a');
    lemma_apart("return"@, "async fn "@, 0);
    assert("return"@[0] == 'r' && "fn "@[0] == 'f');
    lemma_apart("return"@, "fn "@, 0);
    assert("return"@[0] == 'r' && "def "@[0] == 'd');
    lemma_apart("return"@, "def "@, 0);
    assert("return"@[0] == 'r' && "class "@[0] == 'c');
    lemma_apart("return"@, "class "@, 0);
    assert("return"@[0] == 'r' && "if "@[0] == 'i');
    lemma_apart("return"@, "if "@, 0);
    assert("return"@[0] == 'r' && "while "@[0] == 'w');
    lemma_apart("return"@, "while "@, 0);
    assert("return"@[0] == 'r' && "for "@[0] == 'f');
    lemma_apart("return"@, "for "@, 0);
    assert("try:"@.len() == 4 && "break"@.len() == 5);
    assert("try:"@.len() == 4 && "continue"@.len() == 8);
    assert("try:"@.len() == 4 && "return"@.len() == 6);
    assert("break"@.len() == 5 && "continue"@.len() == 8);
    assert("break"@.len() == 5 && "return"@.len() == 6);
    assert("continue"@.len() == 8 && "return"@.len() == 6);
}

/// A word in front of a member of a class tells its visibility; without one it is public.
pub proof fn law_visibility_in_front(rest: Str)
    ensures
        visible("public "@ + rest) == ("public"@, trim(rest)),
        visible("private "@ + rest) == ("private"@, trim(rest)),
        visible("protected "@ + rest) == ("protected"@, trim(rest)),
        visible("let "@ + rest) == ("public"@, "let "@ + rest),
        visible("fn "@ + rest) == ("public"@, "fn "@ + rest),
{
    reveal_strlit("public ");
    reveal_strlit("private ");
    reveal_strlit("protected ");
    reveal_strlit("let ");
    reveal_strlit("fn ");
    lemma_behind("public "@, rest);
    lemma_behind("private "@, rest);
    lemma_behind("protected "@, rest);
    assert(("private "@ + rest)[1] == 'r' && "public "@[1] == 'u');
    lemma_apart("private "@ + rest, "public "@, 1);
    assert(("protected "@ + rest)[1] == 'r' && "public "@[1] == 'u');
    lemma_apart("protected "@ + rest, "public "@, 1);
    assert(("protected "@ + rest)[2] == 'o' && "private "@[2] == 'i');
    lemma_apart("protected "@ + rest, "private "@, 2);
    assert(("let "@ + rest)[0] == 'l' && "public "@[0] == 'p');
    lemma_apart("let "@ + rest, "public "@, 0);
    assert(("let "@ + rest)[0] == 'l' && "private "@[0] == 'p');
    lemma_apart("let "@ + rest, "private "@, 0);
    assert(("let "@ + rest)[0] == 'l' && "protected "@[0] == 'p');
    lemma_apart("let "@ + rest, "protected "@, 0);
    assert(("fn "@ + rest)[0] == 'f' && "public "@[0] == 'p');
    lemma_apart("fn "@ + rest, "public "@, 0);
    assert(("fn "@ + rest)[0] == 'f' && "private "@[0] == 'p');
    lemma_apart("fn "@ + rest, "private "@, 0);
    assert(("fn "@ + rest)[0] == 'f' && "protected "@[0] == 'p');
    lemma_apart("fn "@ + rest, "protected "@, 0);
}

// ---------------------------------------------------------------------------
// Statements
// ---------------------------------------------------------------------------

/// Empty lines and comments are no statements.
pub proof fn law_comments_are_no_statements(
    lines: Seq<Str>,
    i: int,
    depth: nat,
    class: bool,
    done: Seq<StmtM>,
)
    requires
        0 <= i < lines.len(),
        trim(lines[i]).len() == 0 || trim(lines[i])[0] == '#',
    ensures
        statements(lines, i, depth, class, done) == statements(lines, i + 1, depth, class, done),
{
}

/// A line that is a statement by itself is the next statement, and the one below it follows.
pub proof fn law_statements_come_in_the_order_of_lines(
    lines: Seq<Str>,
    i: int,
    depth: nat,
    class: bool,
    done: Seq<StmtM>,
    s: StmtM,
)
    requires
        0 <= i < lines.len(),
        trim(lines[i]).len() > 0,
        trim(lines[i])[0] != '#',
        !is_blank(lines[i][0]),
        head(trim(lines[i]), class) == Ok::<HeadM, Str>(HeadM::Simple(s)),
    ensures
        statements(lines, i, depth, class, done) == statements(
            lines,
            i + 1,
            depth,
            class,
            done.push(s),
        ),
{
}

/// A loop has the block below its head as its body, and the statements behind the block follow it.
pub proof fn law_loops_have_the_block_below(
    lines: Seq<Str>,
    i: int,
    depth: nat,
    class: bool,
    done: Seq<StmtM>,
    opening: HeadM,
    body: Seq<StmtM>,
)
    requires
        0 <= i < lines.len(),
        depth > 0,
        trim(lines[i]).len() > 0,
        trim(lines[i])[0] != '#',
        !is_blank(lines[i][0]),
        head(trim(lines[i]), class) == Ok::<HeadM, Str>(opening),
        opening is While || opening is For,
        statements(block(lines, i + 1), 0, (depth - 1) as nat, false, Seq::empty()) == Ok::<
            Seq<StmtM>,
            Str,
        >(body),
    ensures
        statements(lines, i, depth, class, done) == statements(
            lines,
            block_end(lines, i + 1),
            depth,
            class,
            done.push(
                match opening {
                    HeadM::While(test) => StmtM::While { condition: test, body },
                    HeadM::For(binding, iterable) => StmtM::For { binding, iterable, body },
                    _ => StmtM::Break,
                },
            ),
        ),
{
    crate::layout::lemma_block_end(lines, i + 1);
}

/// A branch has the block below its head, and the block below an `else:` that follows it as the
/// other branch; without an `else:` there is no other branch.
pub proof fn law_branches_have_their_blocks(
    lines: Seq<Str>,
    i: int,
    depth: nat,
    class: bool,
    done: Seq<StmtM>,
    test: ExprM,
    yes: Seq<StmtM>,
    no: Seq<StmtM>,
)
    requires
        0 <= i < lines.len(),
        depth > 0,
        trim(lines[i]).len() > 0,
        trim(lines[i])[0] != '#',
        !is_blank(lines[i][0]),
        head(trim(lines[i]), class) == Ok::<HeadM, Str>(HeadM::If(test)),
        statements(block(lines, i + 1), 0, (depth - 1) as nat, false, Seq::empty()) == Ok::<
            Seq<StmtM>,
            Str,
        >(yes),
        statements(
            block(lines, block_end(lines, i + 1) + 1),
            0,
            (depth - 1) as nat,
            false,
            Seq::empty(),
        ) == Ok::<Seq<StmtM>, Str>(no),
    ensures
        ({
            let e = block_end(lines, i + 1);
            if e < lines.len() && trim(lines[e]) == "else:"@ {
                statements(lines, i, depth, class, done) == statements(
                    lines,
                    block_end(lines, e + 1),
                    depth,
                    class,
                    done.push(
                        StmtM::If { condition: test, then_branch: yes, else_branch: Some(no) },
                    ),
                )
            } else {
                statements(lines, i, depth, class, done) == statements(
                    lines,
                    e,
                    depth,
                    class,
                    done.push(StmtM::If { condition: test, then_branch: yes, else_branch: None }),
                )
            }
        }),
{
    crate::layout::lemma_block_end(lines, i + 1);
    crate::layout::lemma_block_end(lines, block_end(lines, i + 1) + 1);
}

/// A `try:` needs a `catch` below its block, and has the block below that for a raised error.
pub proof fn law_tries_have_their_catches(
    lines: Seq<Str>,
    i: int,
    depth: nat,
    class: bool,
    done: Seq<StmtM>,
    body: Seq<StmtM>,
    catch_body: Seq<StmtM>,
)
    requires
        0 <= i < lines.len(),
        depth > 0,
        trim(lines[i]).len() > 0,
        trim(lines[i])[0] != '#',
        !is_blank(lines[i][0]),
        head(trim(lines[i]), class) == Ok::<HeadM, Str>(HeadM::Try),
        statements(block(lines, i + 1), 0, (depth - 1) as nat, false, Seq::empty()) == Ok::<
            Seq<StmtM>,
            Str,
        >(body),
        statements(
            block(lines, block_end(lines, i + 1) + 1),
            0,
            (depth - 1) as nat,
            false,
            Seq::empty(),
        ) == Ok::<Seq<StmtM>, Str>(catch_body),
    ensures
        ({
            let e = block_end(lines, i + 1);
            match catch_at(lines, e) {
                None => statements(lines, i, depth, class, done) is Err,
                Some(binding) => statements(lines, i, depth, class, done) == statements(
                    lines,
                    block_end(lines, e + 1),
                    depth,
                    class,
                    done.push(StmtM::TryCatch { body, binding, catch_body }),
                ),
            }
        }),
{
    crate::layout::lemma_block_end(lines, i + 1);
    crate::layout::lemma_block_end(lines, block_end(lines, i + 1) + 1);
}

// ---------------------------------------------------------------------------
// Lines that are run
// ---------------------------------------------------------------------------

/// Lines are run one after the other, from one line to the one that it leads to, as long as each
/// ends well; any other end ends the run.
pub proof fn law_lines_are_run_in_order(
    lines: Seq<Str>,
    i: int,
    vars: Rows<Val>,
    funcs: Rows<Fun>,
    w: World,
    base: Str,
    fuel: nat,
)
    requires
        0 <= i < lines.len(),
    ensures
        ({
            let step = line(lines, i, vars, funcs, w, base, fuel);
            let whole = lines_from(lines, i, vars, funcs, w, base, fuel);
            &&& step.ran.flow != Ok::<FlowM, Str>(FlowM::Continue) ==> whole == step.ran
            &&& step.ran.flow == Ok::<FlowM, Str>(FlowM::Continue) && i < step.next <= lines.len()
                ==> whole == lines_from(
                lines,
                step.next,
                step.ran.vars,
                step.ran.funcs,
                step.ran.world,
                base,
                fuel,
            )
        }),
{
}

/// Empty lines and comments do nothing, and the next line follows.
pub proof fn law_comments_are_not_run(
    lines: Seq<Str>,
    i: int,
    vars: Rows<Val>,
    funcs: Rows<Fun>,
    w: World,
    base: Str,
    fuel: nat,
)
    requires
        0 <= i < lines.len(),
        line_text(lines[i]).1.len() == 0 || line_text(lines[i]).1[0] == '#',
    ensures
        line(lines, i, vars, funcs, w, base, fuel) == (Stepped {
            ran: Ran { flow: Ok(FlowM::Continue), vars, funcs, world: w },
            next: i + 1,
        }),
{
}

/// An `if` line runs the block below it where its condition counts as true, and otherwise the
/// block below its `else:`, if there is one. The run goes on behind both.
pub proof fn law_if_lines_choose(
    rest: Str,
    lines: Seq<Str>,
    i: int,
    vars: Rows<Val>,
    funcs: Rows<Fun>,
    w: World,
    base: Str,
    fuel: nat,
)
    ensures
        ({
            let end = block_end(lines, i + 1);
            let (r, w1) = evaluated(trim(bare(rest)), vars, funcs, w, fuel);
            let step = if_line(rest, lines, i, vars, funcs, w, base, fuel);
            let other = 0 <= end < lines.len() && trim(lines[end]) == "else:"@;
            &&& r is Err ==> step.ran.flow == Err::<FlowM, Str>(r->Err_0)
            &&& r is Ok && truthy(r->Ok_0) ==> step.ran == run_lines(
                block(lines, i + 1),
                vars,
                funcs,
                w1,
                base,
                fuel,
            )
            &&& r is Ok && !truthy(r->Ok_0) && other ==> step.ran == run_lines(
                block(lines, end + 1),
                vars,
                funcs,
                w1,
                base,
                fuel,
            )
            &&& r is Ok && !truthy(r->Ok_0) && !other ==> step.ran == (Ran {
                flow: Ok(FlowM::Continue),
                vars,
                funcs,
                world: w1,
            })
            &&& r is Ok && other ==> step.next == block_end(lines, end + 1)
            &&& r is Ok && !other ==> step.next == end
        }),
{
}

/// A variable that a line declares or assigns has its value afterwards, and no other variable
/// changes; a value that does not have the annotated type is not declared.
pub proof fn law_lines_set_variables(
    target: Str,
    value: Val,
    vars: Rows<Val>,
    funcs: Rows<Fun>,
    w: World,
    other: Str,
)
    requires
        ordered(vars),
        cut(target, "."@) is None,
    ensures
        ({
            let ran = line_assigned(target, value, vars, funcs, w);
            &&& ran.flow == Ok::<FlowM, Str>(FlowM::Continue)
            &&& get(ran.vars, target) == Some(value)
            &&& other != target ==> get(ran.vars, other) == get(vars, other)
            &&& ran.world == w && ran.funcs == funcs
        }),
        ({
            let declared = line_declared(vars, target, value, false);
            &&& get(declared, target) == Some(value)
            &&& other != target ==> get(declared, other) == get(vars, other)
        }),
        get(line_declared(vars, target, value, true), "__zap_export_var__:"@ + target) is Some,
{
    lemma_get_put_same(vars, target, value);
    lemma_put_ordered(vars, target, value);
    if other != target {
        lemma_get_put_other(vars, target, value, other);
    }
    lemma_get_put_same(put(vars, target, value), "__zap_export_var__:"@ + target, Val::Nil);
}

/// A `return` line returns the value of its expression, or nothing without one.
pub proof fn law_return_lines(rest: Str, vars: Rows<Val>, funcs: Rows<Fun>, w: World, fuel: nat)
    ensures
        trim(rest).len() == 0 ==> return_line(rest, vars, funcs, w, fuel) == (Ran {
            flow: Ok(FlowM::Return(Val::Nil)),
            vars,
            funcs,
            world: w,
        }),
        trim(rest).len() > 0 ==> {
            let (r, after) = propagated_text(trim(rest), vars, funcs, w, fuel);
            let ran = return_line(rest, vars, funcs, w, fuel);
            &&& r is Err ==> ran.flow == Err::<FlowM, Str>(r->Err_0)
            &&& r is Ok && r->Ok_0 is Value ==> ran.flow == Ok::<FlowM, Str>(
                FlowM::Return(r->Ok_0->Value_0),
            )
            &&& r is Ok && r->Ok_0 is Propagate ==> ran.flow == Ok::<FlowM, Str>(
                FlowM::Return(r->Ok_0->Propagate_0),
            )
            &&& ran.world == after
        },
{
}

/// A line that declares a variable with an annotation tests its value against it.
pub proof fn law_let_lines_test_their_annotation(
    name: Str,
    annotation: Option<Str>,
    source: Str,
    rest: Str,
    i: int,
    vars: Rows<Val>,
    funcs: Rows<Fun>,
    w: World,
    fuel: nat,
    value: Val,
)
    requires
        cut(rest, "="@) is Some,
        crate::program::annotated(trim((cut(rest, "="@)->0).0)) == (name, annotation),
        propagated_text((cut(rest, "="@)->0).1, vars, funcs, w, fuel).0 == Ok::<OutcomeM, Str>(
            OutcomeM::Value(value),
        ),
    ensures
        ({
            let ran = let_line(rest, i, false, vars, funcs, w, fuel);
            let fits = annotation is None || checked(name, annotation->0, value) is Ok;
            &&& fits ==> ran.flow == Ok::<FlowM, Str>(FlowM::Continue) && get(ran.vars, name)
                == Some(value)
            &&& !fits ==> ran.flow is Err && ran.vars == vars
        }),
{
    lemma_get_put_same(vars, name, value);
}

// ---------------------------------------------------------------------------
// Modules
// ---------------------------------------------------------------------------

/// A module that has been loaded is not run again, one that is being loaded is refused, and one
/// that is not found or cannot be read leaves variables and functions as they are.
pub proof fn law_modules_are_run_once(
    raw: Str,
    vars: Rows<Val>,
    funcs: Rows<Fun>,
    w: World,
    base: Str,
    explicit: bool,
    fuel: nat,
)
    ensures
        ({
            let ran = load_module(raw, vars, funcs, w, base, explicit, fuel);
            let path = import_path(raw, w.separator);
            let (found, w1) = module_file(path->Ok_0, base, w);
            &&& path is Err ==> ran.flow is Err && ran.world == w
            &&& path is Ok && found is Err ==> ran.flow is Err && ran.vars == vars && ran.funcs
                == funcs
            &&& path is Ok && found is Ok && get(w1.modules, found->Ok_0) is Some ==> ran.flow
                == Ok::<FlowM, Str>(FlowM::Continue) && ran.world == w1
            &&& path is Ok && found is Ok && get(w1.modules, found->Ok_0) is None
                && w1.loading.contains(found->Ok_0) ==> ran.flow is Err && ran.world == w1
        }),
{
    let (found, w1) = module_file(import_path(raw, w.separator)->Ok_0, base, w);
    crate::surroundings::law_circular_imports(w1.loading, found->Ok_0);
}

/// A module that fails leaves the variables and functions of the program that imports it as they
/// are, and a line may not import a module that returns.
pub proof fn law_failed_modules_change_nothing(
    file: Str,
    program: Seq<StmtM>,
    vars: Rows<Val>,
    funcs: Rows<Fun>,
    w: World,
    base: Str,
    explicit: bool,
    fuel: nat,
)
    ensures
        ({
            let ran = module_run(file, program, vars, funcs, w, base, explicit, fuel);
            &&& ran.flow != Ok::<FlowM, Str>(FlowM::Continue) ==> ran.vars == vars && ran.funcs
                == funcs
            &&& ran.flow is Ok && ran.flow->Ok_0 is Return ==> module_ended(ran).flow is Err
            &&& !(ran.flow is Ok && ran.flow->Ok_0 is Return) ==> module_ended(ran) == ran
        }),
{
}

// ---------------------------------------------------------------------------
// Definitions in lines
// ---------------------------------------------------------------------------

/// A function that a line defines is found under its name, with the parameters of its signature and
/// the block below it as its body, and closes over the variables that it was defined with.
pub proof fn law_line_functions_are_found(
    rest: Str,
    body: Seq<Str>,
    vars: Rows<Val>,
    funcs: Rows<Fun>,
    w: World,
    name: Str,
    args: Str,
)
    requires
        cut(bare(rest), "("@) == Some((name, args)),
        signature(args) is Ok,
        w.frames.len() < usize::MAX,
    ensures
        ({
            let done = function_defined(rest, body, false, vars, funcs, w);
            let found = get(done.funcs, trim(name));
            &&& done.result is Ok
            &&& found is Some
            &&& found->0.params == (signature(args)->Ok_0).0
            &&& found->0.return_annotation == (signature(args)->Ok_0).1
            &&& found->0.body == body
            &&& found->0.ast_body is None
            &&& found->0.visibility == "public"@
            &&& found->0.closure == w.frames.len() + 1
            &&& done.world.frames[w.frames.len() as int].names == vars
            &&& done.world.frames[w.frames.len() as int + 1].parent == Some(w.frames.len() as usize)
        }),
{
    let (closure, w1) = crate::lines::closed_over(vars, w);
    let (params, annotation) = signature(args)->Ok_0;
    lemma_get_put_same(
        funcs,
        trim(name),
        crate::lines::line_record("public"@, params, annotation, body, closure),
    );
}

/// A method that a line defines is found under its class, with the visibility in front of it, and
/// its code runs in its class.
pub proof fn law_line_methods_are_found(
    class_name: Str,
    visibility: Str,
    rest: Str,
    body: Seq<Str>,
    vars: Rows<Val>,
    funcs: Rows<Fun>,
    w: World,
    name: Str,
    args: Str,
)
    requires
        cut(bare(rest), "("@) == Some((name, args)),
        signature(args) is Ok,
        trim(name) != "init"@,
        w.frames.len() < usize::MAX,
    ensures
        ({
            let done = method_defined(class_name, visibility, rest, body, vars, funcs, w);
            let found = get(done.funcs, method_key(class_name, trim(name)));
            &&& done.result is Ok
            &&& found is Some
            &&& found->0.visibility == visibility
            &&& found->0.body == body
            &&& found->0.params == method_params((signature(args)->Ok_0).0)
            &&& get(
                done.world.frames[w.frames.len() as int].names,
                "__zap_owner_class"@,
            ) == Some(Val::Text(class_name))
        }),
{
    let local = put(vars, "__zap_owner_class"@, Val::Text(class_name));
    lemma_get_put_same(vars, "__zap_owner_class"@, Val::Text(class_name));
    let (closure, w1) = crate::lines::closed_over(local, w);
    let (params, annotation) = signature(args)->Ok_0;
    lemma_get_put_same(
        funcs,
        method_key(class_name, trim(name)),
        crate::lines::line_record(visibility, method_params(params), annotation, body, closure),
    );
}

/// A `for` line goes through a list from its first item on, with its name bound to each; anything
/// else than a list, and a list of more than 100000 items, is an error.
pub proof fn law_for_lines_go_through_lists(
    rest: Str,
    name: Str,
    source: Str,
    body: Seq<Str>,
    vars: Rows<Val>,
    funcs: Rows<Fun>,
    w: World,
    base: Str,
    fuel: nat,
)
    requires
        cut(bare(rest), " in "@) == Some((name, source)),
    ensures
        ({
            let (r, after) = evaluated(trim(source), vars, funcs, w, fuel);
            let ran = for_line(rest, body, vars, funcs, w, base, fuel);
            &&& r is Err ==> ran.flow == Err::<FlowM, Str>(r->Err_0)
            &&& r is Ok && !(r->Ok_0 is List) ==> ran.flow is Err
            &&& r is Ok && r->Ok_0 is List && r->Ok_0->List_0.len() > 100_000 ==> ran.flow is Err
            &&& r is Ok && r->Ok_0 is List && r->Ok_0->List_0.len() <= 100_000 ==> ran == for_lines(
                trim(name),
                r->Ok_0->List_0,
                0,
                body,
                vars,
                funcs,
                after,
                base,
                fuel,
            )
        }),
{
}

/// An assignment in a line sets its target to the value of its expression; an error or nothing
/// behind which a question mark stands leaves the function instead.
pub proof fn law_assignment_lines(
    target: Str,
    source: Str,
    vars: Rows<Val>,
    funcs: Rows<Fun>,
    w: World,
    fuel: nat,
)
    ensures
        ({
            let (r, after) = propagated_text(source, vars, funcs, w, fuel);
            let ran = assign_line(target, source, vars, funcs, w, fuel);
            &&& r is Err ==> ran.flow == Err::<FlowM, Str>(r->Err_0)
            &&& r is Ok && r->Ok_0 is Propagate ==> ran.flow == Ok::<FlowM, Str>(
                FlowM::Return(r->Ok_0->Propagate_0),
            ) && ran.vars == vars
            &&& r is Ok && r->Ok_0 is Value ==> ran == line_assigned(
                target,
                r->Ok_0->Value_0,
                vars,
                funcs,
                after,
            )
        }),
{
}

/// A field of the object that a variable holds is set by an assignment to the variable, a dot and
/// the field; without such an object the assignment fails.
pub proof fn law_lines_set_fields(
    target: Str,
    name: Str,
    field: Str,
    class_name: Str,
    id: usize,
    value: Val,
    vars: Rows<Val>,
    funcs: Rows<Fun>,
    w: World,
)
    requires
        cut(target, "."@) == Some((name, field)),
    ensures
        get(vars, name) == Some(Val::Object { class_name, id }) && id < w.cells.len()
            && !w.cells[id as int].held ==> {
            let ran = line_assigned(target, value, vars, funcs, w);
            &&& ran.flow == Ok::<FlowM, Str>(FlowM::Continue)
            &&& get(ran.world.cells[id as int].fields, trim(field)) == Some(value)
        },
        !(get(vars, name) is Some && get(vars, name)->0 is Object) ==> line_assigned(
            target,
            value,
            vars,
            funcs,
            w,
        ).flow is Err,
{
    if id < w.cells.len() {
        lemma_get_put_same(w.cells[id as int].fields, trim(field), value);
    }
}

/// A parameter has a default behind an equal sign and an annotation behind a colon, where there are
/// such signs.
pub proof fn law_parameters_are_read(piece: Str, left: Str, right: Str, name: Str, annotation: Str)
    ensures
        cut(piece, "="@) is None && cut(piece, ":"@) is None ==> parameter(piece) == (ParamM {
            name: trim(piece),
            annotation: None,
            default: None,
        }),
        cut(piece, "="@) is None && cut(piece, ":"@) == Some((name, annotation)) ==> parameter(piece)
            == (ParamM { name: trim(name), annotation: Some(trim(annotation)), default: None }),
        cut(piece, "="@) == Some((left, right)) && cut(left, ":"@) is None ==> parameter(piece) == (
        ParamM { name: trim(left), annotation: None, default: Some(trim(right)) }),
        cut(piece, "="@) == Some((left, right)) && cut(left, ":"@) == Some((name, annotation))
            ==> parameter(piece) == (ParamM {
            name: trim(name),
            annotation: Some(trim(annotation)),
            default: Some(trim(right)),
        }),
{
}

/// The name of a class stands first in its line, and that of the class above it behind `extends`.
pub proof fn law_class_lines(name: Str, above: Str, rest: Str)
    requires
        words(trim(bare(rest))) == seq![name, "extends"@, above],
    ensures
        class_names(rest) == Some((name, Some(above))),
{
}

/// A class is declared by its name, and with ` extends ` and the name of the class above it; the
/// line ends with a colon.
pub proof fn law_class_heads(rest: Str, text: Str, left: Str, right: Str)
    ensures
        opened(rest) is Err ==> class_head(rest) is Err,
        opened(rest) == Ok::<Str, Str>(text) && cut(text, " extends "@) is None ==> (class_head(
            rest,
        ) is Ok <==> good_name(text)) && (good_name(text) ==> class_head(rest) == Ok::<HeadM, Str>(
            HeadM::Class(text, None),
        )),
        opened(rest) == Ok::<Str, Str>(text) && cut(text, " extends "@) == Some((left, right)) ==> (
        class_head(rest) is Ok <==> good_name(trim(left))) && (good_name(trim(left)) ==> class_head(
            rest,
        ) == Ok::<HeadM, Str>(HeadM::Class(trim(left), Some(trim(right))))),
{
}

/// A `for` names what each item is bound to and, behind ` in `, the list.
pub proof fn law_for_heads(rest: Str, text: Str, left: Str, right: Str, e: ExprM)
    requires
        opened(rest) == Ok::<Str, Str>(text),
        cut(text, " in "@) == Some((left, right)),
    ensures
        good_name(trim(left)) && parsed_expression(trim(right)) == Ok::<ExprM, Str>(e) ==> for_head(
            rest,
        ) == Ok::<HeadM, Str>(HeadM::For(trim(left), e)),
        !good_name(trim(left)) ==> for_head(rest) is Err,
{
}

/// The head of a block ends with a colon, which is not part of it.
pub proof fn law_heads_end_with_a_colon(text: Str)
    ensures
        opened(text + seq![':']) == Ok::<Str, Str>(trim(text)),
        text.len() > 0 && text.last() != ':' ==> opened(text) is Err,
{
    reveal_strlit(":");
    let s = text + seq![':'];
    assert(":"@ =~= seq![':']);
    assert(s.subrange(s.len() - 1, s.len() as int) =~= seq![':']);
    assert(s.take(s.len() - 1) =~= text);
    if text.len() > 0 && text.last() != ':' {
        if has_suffix(text, ":"@) {
            assert(text.subrange(text.len() - 1, text.len() as int)[0] == text.last());
        }
    }
}

/// A declaration names a variable, with its type behind a colon, and behind the equal sign its
/// value.
pub proof fn law_declarations_are_read(
    rest: Str,
    left: Str,
    right: Str,
    visibility: Str,
    exported: bool,
    e: ExprM,
)
    requires
        cut(rest, "="@) == Some((left, right)),
        good_name(annotated(left).0),
        parsed_expression(trim(right)) == Ok::<ExprM, Str>(e),
    ensures
        declaration(rest, false, visibility, exported) == Ok::<HeadM, Str>(
            HeadM::Simple(
                StmtM::Declaration {
                    name: annotated(left).0,
                    annotation: annotated(left).1,
                    value: e,
                    exported,
                },
            ),
        ),
        declaration(rest, true, visibility, exported) == Ok::<HeadM, Str>(
            HeadM::Simple(
                StmtM::Field {
                    name: annotated(left).0,
                    annotation: annotated(left).1,
                    value: e,
                    visibility,
                },
            ),
        ),
        cut(left, ":"@) is None ==> annotated(left) == (trim(left), None::<Str>),
        cut(left, ":"@) is Some ==> annotated(left) == (
            trim((cut(left, ":"@)->0).0),
            Some(trim((cut(left, ":"@)->0).1)),
        ),
{
}

/// A function has the name in front of its bracket and the signature behind it.
pub proof fn law_function_heads(
    rest: Str,
    text: Str,
    title: Str,
    args: Str,
    visibility: Str,
    is_async: bool,
    exported: bool,
)
    requires
        opened(rest) == Ok::<Str, Str>(text),
        cut(text, "("@) == Some((title, args)),
        generic_parts(trim(title)) is None,
        good_name(trim(title)),
        signature(args) is Ok,
    ensures
        function_head(rest, visibility, is_async, exported) == Ok::<HeadM, Str>(
            HeadM::Function {
                name: trim(title),
                type_params: Seq::empty(),
                params: (signature(args)->Ok_0).0,
                return_type: (signature(args)->Ok_0).1,
                visibility,
                is_async,
                exported,
            },
        ),
{
}

/// An assignment has its target before a single equal sign and its value behind it; two equal signs
/// are no assignment.
pub proof fn law_assignments_are_read(line: Str, left: Str, right: Str)
    requires
        cut(line, "="@) == Some((left, right)),
        cut(trim(left), "."@) is None,
        good_name(trim(left)),
    ensures
        !leads(right, '=') ==> assignment(line) == Some((trim(left), trim(right))),
        leads(right, '=') ==> assignment(line) is None,
{
}

/// A word in front of a line of a class tells the visibility of its method; without one it is
/// public.
pub proof fn law_visibility_of_line_methods(rest: Str)
    ensures
        shown_line("public "@ + rest) == ("public"@, rest),
        shown_line("private "@ + rest) == ("private"@, rest),
        shown_line("protected "@ + rest) == ("protected"@, rest),
        shown_line("fn "@ + rest) == ("public"@, "fn "@ + rest),
        definition_of("fn "@ + rest) == Some(rest),
        definition_of("def "@ + rest) == Some(rest),
{
    reveal_strlit("public ");
    reveal_strlit("private ");
    reveal_strlit("protected ");
    reveal_strlit("fn ");
    reveal_strlit("def ");
    lemma_stripped("public "@, rest);
    lemma_stripped("private "@, rest);
    lemma_stripped("protected "@, rest);
    lemma_stripped("fn "@, rest);
    lemma_stripped("def "@, rest);
    assert(("private "@ + rest)[1] == 'r' && "public "@[1] == 'u');
    lemma_apart("private "@ + rest, "public "@, 1);
    assert(("protected "@ + rest)[1] == 'r' && ("protected "@ + rest)[2] == 'o');
    lemma_apart("protected "@ + rest, "public "@, 1);
    lemma_apart("protected "@ + rest, "private "@, 2);
    assert(("fn "@ + rest)[0] == 'f');
    lemma_apart("fn "@ + rest, "public "@, 0);
    lemma_apart("fn "@ + rest, "private "@, 0);
    lemma_apart("fn "@ + rest, "protected "@, 0);
    assert(("def "@ + rest)[0] == 'd');
    lemma_apart("def "@ + rest, "fn "@, 0);
}

proof fn lemma_stripped(word: Str, rest: Str)
    ensures
        stripped(word + rest, word) == Some(rest),
{
    let line = word + rest;
    assert(line.subrange(0, word.len() as int) =~= word);
    assert(line.skip(word.len() as int) =~= rest);
}

/// The program of a source is that of its lines, with blocks nested at most 64 deep, if its layout
/// passes.
pub proof fn law_programs_are_read(source: Str)
    ensures
        layout(lines_of(source)) is Err ==> parsed_program(source) is Err,
        layout(lines_of(source)) is Ok ==> parsed_program(source) == statements(
            lines_of(source),
            0,
            64,
            false,
            Seq::empty(),
        ),
{
}

/// Whether a character is a letter of the alphabet, small or capital.
pub open spec fn is_letter(c: char) -> bool {
    'a' <= c <= 'z' || 'A' <= c <= 'Z'
}

/// A name begins with a letter, an underscore or a character beyond ASCII, and goes on with those
/// and with digits; it is not empty.
pub proof fn law_names(s: Str)
    ensures
        good_name(s) <==> {
            &&& s.len() > 0
            &&& is_letter(s[0]) || s[0] == '_' || s[0] > '\u{7f}'
            &&& forall|i: int|
                0 <= i < s.len() ==> is_letter(#[trigger] s[i]) || s[i] == '_' || s[i] > '\u{7f}'
                    || '0' <= s[i] <= '9'
        },
{
    if good_name(s) {
        assert forall|i: int| 0 <= i < s.len() implies is_letter(#[trigger] s[i]) || s[i] == '_'
            || s[i] > '\u{7f}' || '0' <= s[i] <= '9' by {
            assert(crate::lexer::continues_name(s[i]));
        }
    }
}

/// A file is named in a `use` line by a quotation mark in front, a slash in it or `.zp` at its end.
pub proof fn law_used_files(text: Str)
    ensures
        text.len() > 0 && text[0] == '"' ==> names_file(text),
        text.contains('/') ==> names_file(text),
        has_suffix(text, ".zp"@) ==> names_file(text),
        names_file(text) ==> text.contains('/') || has_suffix(text, ".zp"@) || text[0] == '"',
{
}

/// A function with type parameters has the name in front of the angle bracket and the parameters
/// inside the brackets.
pub proof fn law_heads_of_functions_with_type_parameters(
    rest: Str,
    text: Str,
    title: Str,
    name: Str,
    inside: Str,
    args: Str,
    visibility: Str,
    is_async: bool,
    exported: bool,
)
    requires
        opened(rest) == Ok::<Str, Str>(text),
        cut(text, "("@) == Some((title, args)),
        generic_parts(trim(title)) == Some((name, inside)),
        good_name(trim(name)),
        signature(args) is Ok,
    ensures
        generic_args(inside) is Ok ==> function_head(rest, visibility, is_async, exported) == Ok::<
            HeadM,
            Str,
        >(
            HeadM::Function {
                name: trim(name),
                type_params: generic_args(inside)->Ok_0,
                params: (signature(args)->Ok_0).0,
                return_type: (signature(args)->Ok_0).1,
                visibility,
                is_async,
                exported,
            },
        ),
        generic_args(inside) is Err ==> function_head(rest, visibility, is_async, exported) is Err,
{
}

// ---------------------------------------------------------------------------
// Classes made of lines
// ---------------------------------------------------------------------------

/// A class made of lines needs the class that it names as its parent.
pub proof fn law_line_classes_need_their_parent(
    rest: Str,
    body: Seq<Str>,
    vars: Rows<Val>,
    funcs: Rows<Fun>,
    w: World,
    name: Str,
    above: Str,
)
    requires
        ordered(funcs),
        class_names(rest) == Some((name, Some(above))),
        get(funcs, class_key(above)) is None,
        class_key(above) != class_key(name),
    ensures
        class_defined(rest, body, vars, funcs, w).result is Err,
{
    let (own, w1) = crate::lines::closed_over(vars, w);
    lemma_get_put_other(
        funcs,
        class_key(name),
        crate::registry::mark(Seq::empty(), own),
        class_key(above),
    );
}

proof fn lemma_stays(funcs: Rows<Fun>, key: Str, f: Fun, other: Str)
    requires
        ordered(funcs),
    ensures
        ordered(put(funcs, key, f)),
        get(put(funcs, key, f), key) is Some,
        get(funcs, other) is Some ==> get(put(funcs, key, f), other) is Some,
{
    lemma_put_ordered(funcs, key, f);
    lemma_get_put_same(funcs, key, f);
    if other != key {
        lemma_get_put_other(funcs, key, f, other);
    }
}

proof fn lemma_method_stays(
    class_name: Str,
    visibility: Str,
    rest: Str,
    body: Seq<Str>,
    vars: Rows<Val>,
    funcs: Rows<Fun>,
    w: World,
    key: Str,
)
    requires
        ordered(funcs),
    ensures
        ordered(method_defined(class_name, visibility, rest, body, vars, funcs, w).funcs),
        get(funcs, key) is Some ==> get(
            method_defined(class_name, visibility, rest, body, vars, funcs, w).funcs,
            key,
        ) is Some,
{
    if cut(bare(rest), "("@) is Some {
        let pair = cut(bare(rest), "("@)->0;
        let name = trim(pair.0);
        let (closure, w1) = crate::lines::closed_over(vars, w);
        let first = crate::lines::line_record(visibility, Seq::empty(), None, Seq::empty(), closure);
        let init_key = crate::registry::own_init_key(class_name);
        lemma_stays(funcs, init_key, first, key);
        let (known, w2) = if name == "init"@ {
            (put(funcs, init_key, first), w1)
        } else {
            (funcs, w)
        };
        if signature(pair.1) is Ok {
            let (params, annotation) = signature(pair.1)->Ok_0;
            let (inner, w3) = crate::lines::closed_over(
                put(vars, "__zap_owner_class"@, Val::Text(class_name)),
                w2,
            );
            lemma_stays(
                known,
                method_key(class_name, name),
                crate::lines::line_record(
                    visibility,
                    method_params(params),
                    annotation,
                    body,
                    inner,
                ),
                key,
            );
        }
    }
}

proof fn lemma_methods_stay(
    class_name: Str,
    lines: Seq<Str>,
    j: int,
    vars: Rows<Val>,
    funcs: Rows<Fun>,
    w: World,
    key: Str,
)
    requires
        ordered(funcs),
    ensures
        ordered(methods_defined(class_name, lines, j, vars, funcs, w).funcs),
        get(funcs, key) is Some ==> get(
            methods_defined(class_name, lines, j, vars, funcs, w).funcs,
            key,
        ) is Some,
    decreases lines.len() - j,
{
    if 0 <= j < lines.len() {
        let (visibility, line) = shown_line(trim(lines[j]));
        match definition_of(line) {
            None => {
                lemma_methods_stay(class_name, lines, j + 1, vars, funcs, w, key);
            },
            Some(rest) => {
                let below = block(lines, j + 1);
                lemma_method_stays(class_name, visibility, rest, below, vars, funcs, w, key);
                let step = method_defined(class_name, visibility, rest, below, vars, funcs, w);
                crate::layout::lemma_block_end(lines, j + 1);
                if step.result is Ok {
                    lemma_methods_stay(
                        class_name,
                        lines,
                        block_end(lines, j + 1),
                        vars,
                        step.funcs,
                        step.world,
                        key,
                    );
                }
            },
        }
    }
}

proof fn lemma_handed_on(
    class_name: Str,
    prefix: Str,
    records: Rows<Fun>,
    i: nat,
    j: int,
    funcs: Rows<Fun>,
)
    requires
        ordered(funcs),
        i <= j < records.len(),
        has_prefix(records[j].0, prefix),
    ensures
        get(
            inherited(class_name, prefix, records, i, true, funcs),
            method_key(class_name, without_prefixes(records[j].0, prefix)),
        ) is Some,
    decreases records.len() - i,
{
    let key = records[i as int].0;
    let own = method_key(class_name, without_prefixes(key, prefix));
    let wanted = method_key(class_name, without_prefixes(records[j].0, prefix));
    let next = if has_prefix(key, prefix) && get(funcs, own) is None {
        put(funcs, own, records[i as int].1)
    } else {
        funcs
    };
    lemma_stays(funcs, own, records[i as int].1, wanted);
    if i == j {
        crate::laws::law_own_members_win(class_name, prefix, records, i + 1, true, next, wanted);
    } else {
        lemma_handed_on(class_name, prefix, records, i + 1, j, next);
    }
}

/// A class made of lines is known under its name, keeps what was known before it, and has every
/// member that its parent has.
pub proof fn law_line_classes_have_the_members_of_their_parent(
    rest: Str,
    body: Seq<Str>,
    vars: Rows<Val>,
    funcs: Rows<Fun>,
    w: World,
    name: Str,
    above: Str,
    key: Str,
)
    requires
        ordered(funcs),
        class_names(rest) == Some((name, Some(above))),
        class_defined(rest, body, vars, funcs, w).result is Ok,
        get(funcs, key) is Some,
    ensures
        get(class_defined(rest, body, vars, funcs, w).funcs, key) is Some,
        get(class_defined(rest, body, vars, funcs, w).funcs, class_key(name)) is Some,
        get(class_defined(rest, body, vars, funcs, w).funcs, parent_key(name)) is Some,
        has_prefix(key, above + "."@) ==> get(
            class_defined(rest, body, vars, funcs, w).funcs,
            method_key(name, without_prefixes(key, above + "."@)),
        ) is Some,
{
    let (own, w1) = crate::lines::closed_over(vars, w);
    let class_mark = crate::registry::mark(Seq::empty(), own);
    let known = put(funcs, class_key(name), class_mark);
    lemma_stays(funcs, class_key(name), class_mark, key);
    let (link, w2) = crate::lines::closed_over(vars, w1);
    let parent_mark = crate::registry::mark(seq![above], link);
    let linked = put(known, parent_key(name), parent_mark);
    lemma_stays(known, parent_key(name), parent_mark, key);
    lemma_stays(known, parent_key(name), parent_mark, class_key(name));
    lemma_methods_stay(name, body, 0, vars, linked, w2, key);
    lemma_methods_stay(name, body, 0, vars, linked, w2, class_key(name));
    lemma_methods_stay(name, body, 0, vars, linked, w2, parent_key(name));
    let done = methods_defined(name, body, 0, vars, linked, w2);
    let prefix = above + "."@;
    crate::laws::law_own_members_win(name, prefix, done.funcs, 0, true, done.funcs, key);
    crate::laws::law_own_members_win(
        name,
        prefix,
        done.funcs,
        0,
        true,
        done.funcs,
        class_key(name),
    );
    crate::laws::law_own_members_win(
        name,
        prefix,
        done.funcs,
        0,
        true,
        done.funcs,
        parent_key(name),
    );
    if has_prefix(key, prefix) {
        crate::table::lemma_get_found(done.funcs, key);
        lemma_handed_on(
            name,
            prefix,
            done.funcs,
            0,
            crate::table::slot(done.funcs, key) as int,
            done.funcs,
        );
    }
}

// ---------------------------------------------------------------------------
// Lists of parameters
// ---------------------------------------------------------------------------

pub open spec fn opens(c: char) -> bool {
    c == '(' || c == '[' || c == '{'
}

pub open spec fn closes(c: char) -> bool {
    c == ')' || c == ']' || c == '}'
}

/// How many more brackets open than close from one place to another.
pub open spec fn open_brackets(s: Str, i: int, e: int) -> int
    decreases e - i,
{
    if i >= e {
        0
    } else {
        (if opens(s[i]) {
            1int
        } else if closes(s[i]) {
            -1int
        } else {
            0int
        }) + open_brackets(s, i + 1, e)
    }
}

/// In a text without quotation marks, angle brackets and equal signs, a parameter ends at the first
/// comma outside of brackets, or at the first bracket that closes what was not opened, or else at
/// the end.
pub proof fn law_parameters_end_at_commas(s: Str, i: int, depth: nat)
    requires
        0 <= i <= s.len(),
        forall|k: int|
            0 <= k < s.len() ==> (#[trigger] s[k]) != '"' && s[k] != '<' && s[k] != '>' && s[k]
                != '=',
    ensures
        ({
            let e = piece_stop(s, i, depth, false, false);
            &&& i <= e <= s.len()
            &&& e < s.len() ==> depth + open_brackets(s, i, e) == 0 && (s[e] == ',' || closes(s[e]))
            &&& forall|k: int|
                i <= k < e && (#[trigger] s[k] == ',' || closes(s[k])) ==> depth + open_brackets(
                    s,
                    i,
                    k,
                ) > 0
        }),
    decreases s.len() - i,
{
    if i < s.len() {
        let c = s[i];
        if opens(c) {
            law_parameters_end_at_commas(s, i + 1, depth + 1);
        } else if closes(c) {
            if depth > 0 {
                law_parameters_end_at_commas(s, i + 1, (depth - 1) as nat);
            }
        } else if c != ',' || depth > 0 {
            law_parameters_end_at_commas(s, i + 1, depth);
        }
        let e = piece_stop(s, i, depth, false, false);
        assert forall|k: int|
            i <= k < e && (#[trigger] s[k] == ',' || closes(s[k])) implies depth + open_brackets(
            s,
            i,
            k,
        ) > 0 by {
            if k > i {
                assert(open_brackets(s, i, k) == (if opens(c) {
                    1int
                } else if closes(c) {
                    -1int
                } else {
                    0int
                }) + open_brackets(s, i + 1, k));
            }
        }
    }
}

} // verus!
