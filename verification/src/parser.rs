use vstd::prelude::*;
use vstd::string::StringExecFns;
use crate::ast::{
    assignment_index, assignment_views, dependency_views, find_assignment, find_recipe,
    fragment_views, lemma_assignment_index, lemma_recipe_index, line_views, optional_text,
    parameter_views, recipe_index, recipe_views, Assignment, AssignmentView, Dependency,
    DependencyView, Expression, ExpressionView, Fragment, FragmentView, Justfile, JustfileView,
    Line, LineView, Parameter, ParameterView, Recipe, RecipeView,
};
use crate::diagnostic::{failure_at, Diagnostic, DiagnosticView, Span};
use crate::lexer::{blank, blank_end, is_blank, scan_blank};
use crate::text::{chars_of, decimal, push_successor, string_of_range};
use crate::token::{token_views, Token, TokenKind, TokenView};

verus! {

/// What reading a part of the tokens gives: the part's value and the index
/// of the token after it, or the failure.
pub enum Parsed<T> {
    Done { value: T, next: int },
    Failed { error: DiagnosticView },
}

/// The token at index `at`; past the end of the tokens, the end of the source.
pub open spec fn token_at(tokens: Seq<TokenView>, at: int) -> TokenView {
    if 0 <= at < tokens.len() {
        tokens[at]
    } else {
        TokenView {
            kind: TokenKind::Eof,
            text: Seq::empty(),
            span: Span { line: 0, column: 0, length: 0 },
        }
    }
}

/// The kind of the token at index `at`.
pub open spec fn kind_at(tokens: Seq<TokenView>, at: int) -> TokenKind {
    token_at(tokens, at).kind
}

/// How a kind of token is called in a message.
pub open spec fn kind_name(kind: TokenKind) -> Seq<char> {
    match kind {
        TokenKind::Identifier => "name"@,
        TokenKind::StringLiteral { raw } => if raw {
            "raw string"@
        } else {
            "string"@
        },
        TokenKind::Backtick => "backtick"@,
        TokenKind::Equals => "\"=\""@,
        TokenKind::Colon => "\":\""@,
        TokenKind::Plus => "\"+\""@,
        TokenKind::At => "\"@\""@,
        TokenKind::Comment => "comment"@,
        TokenKind::Eol => "end of line"@,
        TokenKind::Indent => "indent"@,
        TokenKind::Dedent => "dedent"@,
        TokenKind::Text => "command text"@,
        TokenKind::InterpolationStart => "{{"@,
        TokenKind::InterpolationEnd => "}}"@,
        TokenKind::Eof => "end of file"@,
    }
}

/// The message for a token of the kind `found` where `expected` was to stand.
pub open spec fn unexpected_message(expected: Seq<char>, found: TokenKind) -> Seq<char> {
    "expected "@ + expected + " but found "@ + kind_name(found)
}

/// The failure for a token that cannot stand where it stands.
pub open spec fn unexpected(tokens: Seq<TokenView>, at: int, expected: Seq<char>) -> DiagnosticView {
    failure_at(unexpected_message(expected, kind_at(tokens, at)), token_at(tokens, at).span)
}

/// The message for a parameter without a default after one with a default.
pub open spec fn required_after_default_message(name: Seq<char>) -> Seq<char> {
    "non-default parameter `"@ + name + "` follows default parameter"@
}

/// The message for a second recipe of one name; the lines are counted from 1.
pub open spec fn duplicate_recipe_message(name: Seq<char>, first: nat, again: nat) -> Seq<char> {
    "recipe `"@ + name + "` first defined on line "@ + decimal(first) + " is redefined on line "@
        + decimal(again)
}

/// The message for a second assignment to one variable.
pub open spec fn duplicate_variable_message(name: Seq<char>) -> Seq<char> {
    "variable `"@ + name + "` has multiple definitions"@
}

/// The message for `{{` that is not closed on its line.
pub open spec fn unterminated_interpolation_message() -> Seq<char> {
    "unterminated interpolation"@
}

/// One operand of an expression: a name, a backtick or a string.
pub open spec fn value(tokens: Seq<TokenView>, pos: int) -> Parsed<ExpressionView> {
    let token = token_at(tokens, pos);
    match token.kind {
        TokenKind::Identifier => Parsed::Done {
            value: ExpressionView::Variable { name: token.text, span: token.span },
            next: pos + 1,
        },
        TokenKind::Backtick => Parsed::Done {
            value: ExpressionView::Backtick { command: token.text, span: token.span },
            next: pos + 1,
        },
        TokenKind::StringLiteral { raw } => Parsed::Done {
            value: ExpressionView::StringLiteral { text: token.text, raw },
            next: pos + 1,
        },
        _ => Parsed::Failed { error: unexpected(tokens, pos, "name, string, or backtick"@) },
    }
}

/// The expression that starts with `left` and goes on at `pos`: every `+`
/// joins what stands before it with the operand after it.
pub open spec fn expression_rest(tokens: Seq<TokenView>, pos: int, left: ExpressionView) -> Parsed<
    ExpressionView,
>
    decreases tokens.len() - pos,
{
    if 0 <= pos < tokens.len() && kind_at(tokens, pos) == TokenKind::Plus {
        match value(tokens, pos + 1) {
            Parsed::Done { value: right, next } => expression_rest(
                tokens,
                next,
                ExpressionView::Concatenation { left: Box::new(left), right: Box::new(right) },
            ),
            Parsed::Failed { error } => Parsed::Failed { error },
        }
    } else {
        Parsed::Done { value: left, next: pos }
    }
}

/// An expression: operands joined by `+`, grouped from the left.
pub open spec fn expression(tokens: Seq<TokenView>, pos: int) -> Parsed<ExpressionView> {
    match value(tokens, pos) {
        Parsed::Done { value: left, next } => expression_rest(tokens, next, left),
        Parsed::Failed { error } => Parsed::Failed { error },
    }
}

/// The rest of an expression takes no token before its start nor past the end.
pub proof fn lemma_expression_rest_advances(tokens: Seq<TokenView>, pos: int, left: ExpressionView)
    ensures
        expression_rest(tokens, pos, left) matches Parsed::Done { next, .. } ==> pos <= next && (pos
            <= tokens.len() ==> next <= tokens.len()),
    decreases tokens.len() - pos,
{
    if 0 <= pos < tokens.len() && kind_at(tokens, pos) == TokenKind::Plus {
        if let Parsed::Done { value: right, next } = value(tokens, pos + 1) {
            lemma_expression_rest_advances(
                tokens,
                next,
                ExpressionView::Concatenation { left: Box::new(left), right: Box::new(right) },
            );
        }
    }
}

/// An expression takes at least one token, and none past the end.
pub proof fn lemma_expression_advances(tokens: Seq<TokenView>, pos: int)
    ensures
        expression(tokens, pos) matches Parsed::Done { next, .. } ==> pos < next && 0 <= pos
            < tokens.len() && next <= tokens.len(),
{
    if let Parsed::Done { value: left, next } = value(tokens, pos) {
        lemma_expression_rest_advances(tokens, next, left);
    }
}

/// The parameters of a recipe from `pos` on, after the parameters `done`;
/// `defaulted` says whether one of those has a default.
pub open spec fn parameters(
    tokens: Seq<TokenView>,
    pos: int,
    done: Seq<ParameterView>,
    defaulted: bool,
) -> Parsed<Seq<ParameterView>>
    decreases tokens.len() - pos,
{
    let token = token_at(tokens, pos);
    if 0 <= pos < tokens.len() && token.kind == TokenKind::Identifier {
        if kind_at(tokens, pos + 1) == TokenKind::Equals {
            proof {
                lemma_expression_advances(tokens, pos + 2);
            }
            match expression(tokens, pos + 2) {
                Parsed::Done { value: default, next } => parameters(
                    tokens,
                    next,
                    done.push(ParameterView { name: token.text, default: Some(default) }),
                    true,
                ),
                Parsed::Failed { error } => Parsed::Failed { error },
            }
        } else if defaulted {
            Parsed::Failed { error: failure_at(required_after_default_message(token.text), token.span) }
        } else {
            parameters(tokens, pos + 1, done.push(ParameterView { name: token.text, default: None }), false)
        }
    } else {
        Parsed::Done { value: done, next: pos }
    }
}

/// The dependencies of a recipe from `pos` on, after the dependencies `done`.
pub open spec fn dependencies(tokens: Seq<TokenView>, pos: int, done: Seq<DependencyView>) -> Parsed<
    Seq<DependencyView>,
>
    decreases tokens.len() - pos,
{
    let token = token_at(tokens, pos);
    if 0 <= pos < tokens.len() && token.kind == TokenKind::Identifier {
        dependencies(tokens, pos + 1, done.push(DependencyView { name: token.text, span: token.span }))
    } else {
        Parsed::Done { value: done, next: pos }
    }
}

/// The end of a line: a comment may stand before it, and the end of the
/// source may stand for it.
pub open spec fn end_of_line(tokens: Seq<TokenView>, pos: int) -> Parsed<()> {
    let at = if kind_at(tokens, pos) == TokenKind::Comment {
        pos + 1
    } else {
        pos
    };
    if kind_at(tokens, at) == TokenKind::Eol {
        Parsed::Done { value: (), next: at + 1 }
    } else if kind_at(tokens, at) == TokenKind::Eof {
        Parsed::Done { value: (), next: at }
    } else {
        Parsed::Failed { error: unexpected(tokens, at, "end of line"@) }
    }
}

/// Whether the interpolation whose first token stands at `pos` is closed on
/// its line.
pub open spec fn closes(tokens: Seq<TokenView>, pos: int) -> bool
    decreases tokens.len() - pos,
{
    if !(0 <= pos < tokens.len()) {
        false
    } else {
        match tokens[pos].kind {
            TokenKind::InterpolationEnd => true,
            TokenKind::Eol | TokenKind::Eof | TokenKind::Dedent | TokenKind::Indent | TokenKind::Text
            | TokenKind::InterpolationStart => false,
            _ => closes(tokens, pos + 1),
        }
    }
}

/// Whether a text ends with a backslash: the line goes on in the next one.
pub open spec fn continues(text: Seq<char>) -> bool {
    text.len() > 0 && text.last() == '\\'
}

/// Whether a body line stands at `pos` (and not the end of the body).
pub open spec fn line_follows(tokens: Seq<TokenView>, pos: int) -> bool {
    0 <= pos < tokens.len() && kind_at(tokens, pos) != TokenKind::Dedent && kind_at(tokens, pos)
        != TokenKind::Eof
}

/// The fragments of the body line that goes on at `pos`, after the fragments
/// `done`. A text that ends with a backslash is joined with the next line,
/// without the backslash.
pub open spec fn fragments(tokens: Seq<TokenView>, pos: int, done: Seq<FragmentView>) -> Parsed<
    Seq<FragmentView>,
>
    decreases tokens.len() - pos,
{
    let token = token_at(tokens, pos);
    if !(0 <= pos < tokens.len()) {
        Parsed::Done { value: done, next: pos }
    } else {
        match token.kind {
            TokenKind::Text => {
                if continues(token.text) && kind_at(tokens, pos + 1) == TokenKind::Eol && line_follows(
                    tokens,
                    pos + 2,
                ) {
                    fragments(
                        tokens,
                        pos + 2,
                        done.push(FragmentView::Text { text: token.text.drop_last() }),
                    )
                } else {
                    fragments(tokens, pos + 1, done.push(FragmentView::Text { text: token.text }))
                }
            },
            TokenKind::InterpolationStart => {
                if !closes(tokens, pos + 1) {
                    Parsed::Failed { error: failure_at(unterminated_interpolation_message(), token.span) }
                } else {
                    proof {
                        lemma_expression_advances(tokens, pos + 1);
                    }
                    match expression(tokens, pos + 1) {
                        Parsed::Done { value: inner, next } => {
                            if kind_at(tokens, next) == TokenKind::InterpolationEnd {
                                fragments(
                                    tokens,
                                    next + 1,
                                    done.push(FragmentView::Interpolation { expression: inner }),
                                )
                            } else {
                                Parsed::Failed { error: unexpected(tokens, next, "\"+\" or }}"@) }
                            }
                        },
                        Parsed::Failed { error } => Parsed::Failed { error },
                    }
                }
            },
            TokenKind::Eol => Parsed::Done { value: done, next: pos + 1 },
            TokenKind::Dedent | TokenKind::Eof => Parsed::Done { value: done, next: pos },
            _ => Parsed::Failed { error: unexpected(tokens, pos, "command text or {{"@) },
        }
    }
}

/// Whether the first fragment of a line is a text that starts with `c`.
pub open spec fn starts_with_char(fragments: Seq<FragmentView>, c: char) -> bool {
    fragments.len() > 0 && fragments[0] is Text && fragments[0]->text.len() > 0
        && fragments[0]->text[0] == c
}

/// Whether the first fragment of a line is a text that starts with `#!`.
pub open spec fn starts_with_shebang(fragments: Seq<FragmentView>) -> bool {
    fragments.len() > 0 && fragments[0] is Text && fragments[0]->text.len() > 1
        && fragments[0]->text[0] == '#' && fragments[0]->text[1] == '!'
}

/// The body line made of `fragments`.
pub open spec fn line_of(fragments: Seq<FragmentView>) -> LineView {
    LineView {
        fragments,
        quiet: starts_with_char(fragments, '@'),
        shebang: starts_with_shebang(fragments),
    }
}

/// `lines` without the empty lines at its end.
pub open spec fn without_trailing_blank(lines: Seq<LineView>) -> Seq<LineView>
    decreases lines.len(),
{
    if lines.len() > 0 && lines.last().fragments.len() == 0 {
        without_trailing_blank(lines.drop_last())
    } else {
        lines
    }
}

/// A line takes at least one token where a line stands, and none past the end.
pub proof fn lemma_fragments_advance(tokens: Seq<TokenView>, pos: int, done: Seq<FragmentView>)
    ensures
        fragments(tokens, pos, done) matches Parsed::Done { next, .. } ==> pos <= next && (line_follows(
            tokens,
            pos,
        ) ==> pos < next) && (0 <= pos <= tokens.len() ==> next <= tokens.len()),
    decreases tokens.len() - pos,
{
    let token = token_at(tokens, pos);
    if 0 <= pos < tokens.len() {
        match token.kind {
            TokenKind::Text => {
                if continues(token.text) && kind_at(tokens, pos + 1) == TokenKind::Eol && line_follows(
                    tokens,
                    pos + 2,
                ) {
                    lemma_fragments_advance(
                        tokens,
                        pos + 2,
                        done.push(FragmentView::Text { text: token.text.drop_last() }),
                    );
                } else {
                    lemma_fragments_advance(
                        tokens,
                        pos + 1,
                        done.push(FragmentView::Text { text: token.text }),
                    );
                }
            },
            TokenKind::InterpolationStart => {
                if closes(tokens, pos + 1) {
                    lemma_expression_advances(tokens, pos + 1);
                    if let Parsed::Done { value: inner, next } = expression(tokens, pos + 1) {
                        if kind_at(tokens, next) == TokenKind::InterpolationEnd {
                            lemma_fragments_advance(
                                tokens,
                                next + 1,
                                done.push(FragmentView::Interpolation { expression: inner }),
                            );
                        }
                    }
                }
            },
            _ => {},
        }
    }
}

/// The lines of a recipe body from `pos` on, after the lines `done`, up to
/// the end of the body; empty lines at the end of the body are left out.
pub open spec fn body(tokens: Seq<TokenView>, pos: int, done: Seq<LineView>) -> Parsed<Seq<LineView>>
    decreases tokens.len() - pos,
{
    if !(0 <= pos < tokens.len()) || kind_at(tokens, pos) == TokenKind::Eof {
        Parsed::Done { value: without_trailing_blank(done), next: pos }
    } else if kind_at(tokens, pos) == TokenKind::Dedent {
        Parsed::Done { value: without_trailing_blank(done), next: pos + 1 }
    } else {
        proof {
            lemma_fragments_advance(tokens, pos, Seq::empty());
        }
        match fragments(tokens, pos, Seq::empty()) {
            Parsed::Done { value: line, next } => body(tokens, next, done.push(line_of(line))),
            Parsed::Failed { error } => Parsed::Failed { error },
        }
    }
}

/// The recipe whose name stands at `pos`: parameters, a colon, dependencies,
/// the end of the line, and the body if one follows. A name that one of
/// `recipes` has is refused.
pub open spec fn recipe(
    tokens: Seq<TokenView>,
    pos: int,
    quiet: bool,
    doc: Option<Seq<char>>,
    recipes: Seq<RecipeView>,
) -> Parsed<RecipeView> {
    let name = token_at(tokens, pos);
    match recipe_index(recipes, name.text) {
        Some(first) => Parsed::Failed {
            error: failure_at(
                duplicate_recipe_message(
                    name.text,
                    (recipes[first].span.line + 1) as nat,
                    (name.span.line + 1) as nat,
                ),
                name.span,
            ),
        },
        None => match parameters(tokens, pos + 1, Seq::empty(), false) {
            Parsed::Failed { error } => Parsed::Failed { error },
            Parsed::Done { value: parameters, next: colon } => {
                if kind_at(tokens, colon) != TokenKind::Colon {
                    Parsed::Failed { error: unexpected(tokens, colon, "name, \"=\", or \":\""@) }
                } else {
                    match dependencies(tokens, colon + 1, Seq::empty()) {
                        Parsed::Failed { error } => Parsed::Failed { error },
                        Parsed::Done { value: dependencies, next: end } => match end_of_line(tokens, end) {
                            Parsed::Failed { error } => Parsed::Failed { error },
                            Parsed::Done { next: start, .. } => {
                                let lines = if kind_at(tokens, start) == TokenKind::Indent {
                                    body(tokens, start + 1, Seq::empty())
                                } else {
                                    Parsed::Done { value: Seq::empty(), next: start }
                                };
                                match lines {
                                    Parsed::Failed { error } => Parsed::Failed { error },
                                    Parsed::Done { value: lines, next } => Parsed::Done {
                                        value: RecipeView {
                                            name: name.text,
                                            quiet,
                                            parameters,
                                            dependencies,
                                            lines,
                                            doc_comment: doc,
                                            span: name.span,
                                        },
                                        next,
                                    },
                                }
                            },
                        },
                    }
                }
            },
        },
    }
}

/// The assignment whose name stands at `pos`, before `=` and an expression.
/// A name that one of `assignments` has is refused.
pub open spec fn assignment(
    tokens: Seq<TokenView>,
    pos: int,
    exported: bool,
    assignments: Seq<AssignmentView>,
) -> Parsed<AssignmentView> {
    let name = token_at(tokens, pos);
    if assignment_index(assignments, name.text) is Some {
        Parsed::Failed { error: failure_at(duplicate_variable_message(name.text), name.span) }
    } else {
        match expression(tokens, pos + 2) {
            Parsed::Failed { error } => Parsed::Failed { error },
            Parsed::Done { value: expression, next: end } => match end_of_line(tokens, end) {
                Parsed::Failed { error } => Parsed::Failed { error },
                Parsed::Done { next, .. } => Parsed::Done {
                    value: AssignmentView { name: name.text, expression, exported, span: name.span },
                    next,
                },
            },
        }
    }
}

/// The last index at or before `to` that ends no run of spaces and tabs.
pub open spec fn blank_start(text: Seq<char>, to: int) -> int
    decreases to,
{
    if 0 < to <= text.len() && is_blank(text[to - 1]) {
        blank_start(text, to - 1)
    } else {
        to
    }
}

/// `text` without the spaces and tabs at its start and at its end.
pub open spec fn trimmed(text: Seq<char>) -> Seq<char> {
    let from = blank_end(text, 0);
    let to = blank_start(text, text.len() as int);
    if from < to {
        text.subrange(from, to)
    } else {
        Seq::empty()
    }
}

/// What a comment says: its text without the `#` and the spaces and tabs
/// around the rest.
pub open spec fn comment_text(comment: Seq<char>) -> Seq<char> {
    if comment.len() > 0 {
        trimmed(comment.skip(1))
    } else {
        Seq::empty()
    }
}

/// Parameters take no token before their start nor past the end.
pub proof fn lemma_parameters_advance(
    tokens: Seq<TokenView>,
    pos: int,
    done: Seq<ParameterView>,
    defaulted: bool,
)
    ensures
        parameters(tokens, pos, done, defaulted) matches Parsed::Done { next, .. } ==> pos <= next && (
        0 <= pos <= tokens.len() ==> next <= tokens.len()),
    decreases tokens.len() - pos,
{
    let token = token_at(tokens, pos);
    if 0 <= pos < tokens.len() && token.kind == TokenKind::Identifier {
        if kind_at(tokens, pos + 1) == TokenKind::Equals {
            lemma_expression_advances(tokens, pos + 2);
            if let Parsed::Done { value: default, next } = expression(tokens, pos + 2) {
                lemma_parameters_advance(
                    tokens,
                    next,
                    done.push(ParameterView { name: token.text, default: Some(default) }),
                    true,
                );
            }
        } else if !defaulted {
            lemma_parameters_advance(
                tokens,
                pos + 1,
                done.push(ParameterView { name: token.text, default: None }),
                false,
            );
        }
    }
}

/// Dependencies take no token before their start nor past the end.
pub proof fn lemma_dependencies_advance(tokens: Seq<TokenView>, pos: int, done: Seq<DependencyView>)
    ensures
        dependencies(tokens, pos, done) matches Parsed::Done { next, .. } ==> pos <= next && (0 <= pos
            <= tokens.len() ==> next <= tokens.len()),
    decreases tokens.len() - pos,
{
    let token = token_at(tokens, pos);
    if 0 <= pos < tokens.len() && token.kind == TokenKind::Identifier {
        lemma_dependencies_advance(
            tokens,
            pos + 1,
            done.push(DependencyView { name: token.text, span: token.span }),
        );
    }
}

/// A body takes no token before its start nor past the end.
pub proof fn lemma_body_advances(tokens: Seq<TokenView>, pos: int, done: Seq<LineView>)
    ensures
        body(tokens, pos, done) matches Parsed::Done { next, .. } ==> pos <= next && (0 <= pos
            <= tokens.len() ==> next <= tokens.len()),
    decreases tokens.len() - pos,
{
    if 0 <= pos < tokens.len() && kind_at(tokens, pos) != TokenKind::Eof && kind_at(tokens, pos)
        != TokenKind::Dedent {
        lemma_fragments_advance(tokens, pos, Seq::empty());
        if let Parsed::Done { value: line, next } = fragments(tokens, pos, Seq::empty()) {
            lemma_body_advances(tokens, next, done.push(line_of(line)));
        }
    }
}

/// A recipe takes at least its colon, and no token past the end.
pub proof fn lemma_recipe_advances(
    tokens: Seq<TokenView>,
    pos: int,
    quiet: bool,
    doc: Option<Seq<char>>,
    recipes: Seq<RecipeView>,
)
    requires
        0 <= pos < tokens.len(),
    ensures
        recipe(tokens, pos, quiet, doc, recipes) matches Parsed::Done { next, .. } ==> pos < next
            <= tokens.len(),
{
    lemma_parameters_advance(tokens, pos + 1, Seq::empty(), false);
    if let Parsed::Done { value: parameters, next: colon } = parameters(
        tokens,
        pos + 1,
        Seq::empty(),
        false,
    ) {
        lemma_dependencies_advance(tokens, colon + 1, Seq::empty());
        if let Parsed::Done { value: dependencies, next: end } = dependencies(
            tokens,
            colon + 1,
            Seq::empty(),
        ) {
            if let Parsed::Done { next: start, .. } = end_of_line(tokens, end) {
                lemma_body_advances(tokens, start + 1, Seq::empty());
            }
        }
    }
}

/// An assignment takes at least its expression, and no token past the end.
pub proof fn lemma_assignment_advances(
    tokens: Seq<TokenView>,
    pos: int,
    exported: bool,
    assignments: Seq<AssignmentView>,
)
    requires
        0 <= pos < tokens.len(),
    ensures
        assignment(tokens, pos, exported, assignments) matches Parsed::Done { next, .. } ==> pos < next
            <= tokens.len(),
{
    lemma_expression_advances(tokens, pos + 2);
}

/// Whether an exported assignment starts at `pos`.
pub open spec fn export_follows(tokens: Seq<TokenView>, pos: int) -> bool {
    token_at(tokens, pos).text == "export"@ && kind_at(tokens, pos + 1) == TokenKind::Identifier
        && kind_at(tokens, pos + 2) == TokenKind::Equals
}

/// The source from `pos` on, after the assignments and recipes of `file`.
/// `doc` is the comment on the line before `pos`, if a comment stands there.
pub open spec fn items(tokens: Seq<TokenView>, pos: int, doc: Option<Seq<char>>, file: JustfileView) -> Result<
    JustfileView,
    DiagnosticView,
>
    decreases tokens.len() - pos,
{
    let token = token_at(tokens, pos);
    if !(0 <= pos < tokens.len()) {
        Ok(file)
    } else {
        match token.kind {
            TokenKind::Eof => Ok(file),
            TokenKind::Eol => items(tokens, pos + 1, None, file),
            TokenKind::Comment => {
                if kind_at(tokens, pos + 1) == TokenKind::Eol {
                    items(tokens, pos + 2, Some(comment_text(token.text)), file)
                } else if kind_at(tokens, pos + 1) == TokenKind::Eof {
                    items(tokens, pos + 1, None, file)
                } else {
                    Err(unexpected(tokens, pos + 1, "end of line"@))
                }
            },
            TokenKind::At => {
                if kind_at(tokens, pos + 1) == TokenKind::Identifier {
                    proof {
                        lemma_recipe_advances(tokens, pos + 1, true, doc, file.recipes);
                    }
                    match recipe(tokens, pos + 1, true, doc, file.recipes) {
                        Parsed::Done { value, next } => items(
                            tokens,
                            next,
                            None,
                            JustfileView { recipes: file.recipes.push(value), ..file },
                        ),
                        Parsed::Failed { error } => Err(error),
                    }
                } else {
                    Err(unexpected(tokens, pos + 1, "name"@))
                }
            },
            TokenKind::Identifier => {
                if export_follows(tokens, pos) {
                    proof {
                        lemma_assignment_advances(tokens, pos + 1, true, file.assignments);
                    }
                    match assignment(tokens, pos + 1, true, file.assignments) {
                        Parsed::Done { value, next } => items(
                            tokens,
                            next,
                            None,
                            JustfileView { assignments: file.assignments.push(value), ..file },
                        ),
                        Parsed::Failed { error } => Err(error),
                    }
                } else if kind_at(tokens, pos + 1) == TokenKind::Equals {
                    proof {
                        lemma_assignment_advances(tokens, pos, false, file.assignments);
                    }
                    match assignment(tokens, pos, false, file.assignments) {
                        Parsed::Done { value, next } => items(
                            tokens,
                            next,
                            None,
                            JustfileView { assignments: file.assignments.push(value), ..file },
                        ),
                        Parsed::Failed { error } => Err(error),
                    }
                } else {
                    proof {
                        lemma_recipe_advances(tokens, pos, false, doc, file.recipes);
                    }
                    match recipe(tokens, pos, false, doc, file.recipes) {
                        Parsed::Done { value, next } => items(
                            tokens,
                            next,
                            None,
                            JustfileView { recipes: file.recipes.push(value), ..file },
                        ),
                        Parsed::Failed { error } => Err(error),
                    }
                }
            },
            _ => Err(unexpected(tokens, pos, "name or \"@\""@)),
        }
    }
}

/// The source that the tokens `tokens` stand for, or the first failure.
pub open spec fn parsed(tokens: Seq<TokenView>) -> Result<JustfileView, DiagnosticView> {
    items(tokens, 0, None, JustfileView { assignments: Seq::empty(), recipes: Seq::empty() })
}

/// The value of what the parser gives for a part of the tokens.
pub open spec fn part<T: View>(r: Result<(T, usize), Diagnostic>) -> Parsed<T::V> {
    match r {
        Ok((value, next)) => Parsed::Done { value: value@, next: next as int },
        Err(error) => Parsed::Failed { error: error@ },
    }
}

fn kind(tokens: &Vec<Token>, at: usize) -> (k: TokenKind)
    ensures
        k == kind_at(token_views(tokens@), at as int),
{
    if at < tokens.len() {
        tokens[at].kind
    } else {
        TokenKind::Eof
    }
}

fn span(tokens: &Vec<Token>, at: usize) -> (s: Span)
    ensures
        s == token_at(token_views(tokens@), at as int).span,
{
    if at < tokens.len() {
        tokens[at].span
    } else {
        Span { line: 0, column: 0, length: 0 }
    }
}

fn kind_label(kind: TokenKind) -> (label: &'static str)
    ensures
        label@ == kind_name(kind),
{
    match kind {
        TokenKind::Identifier => "name",
        TokenKind::StringLiteral { raw } => if raw {
            "raw string"
        } else {
            "string"
        },
        TokenKind::Backtick => "backtick",
        TokenKind::Equals => "\"=\"",
        TokenKind::Colon => "\":\"",
        TokenKind::Plus => "\"+\"",
        TokenKind::At => "\"@\"",
        TokenKind::Comment => "comment",
        TokenKind::Eol => "end of line",
        TokenKind::Indent => "indent",
        TokenKind::Dedent => "dedent",
        TokenKind::Text => "command text",
        TokenKind::InterpolationStart => "{{",
        TokenKind::InterpolationEnd => "}}",
        TokenKind::Eof => "end of file",
    }
}

fn unexpected_token(tokens: &Vec<Token>, at: usize, expected: &str) -> (d: Diagnostic)
    ensures
        d@ == unexpected(token_views(tokens@), at as int, expected@),
{
    let mut message = String::from_str("expected ");
    message.append(expected);
    message.append(" but found ");
    message.append(kind_label(kind(tokens, at)));
    Diagnostic::at(message, span(tokens, at))
}

fn parse_value(tokens: &Vec<Token>, pos: usize) -> (r: Result<(Expression, usize), Diagnostic>)
    ensures
        part(r) == value(token_views(tokens@), pos as int),
        r matches Ok((_, next)) ==> pos < tokens.len() && next == pos + 1,
{
    if pos >= tokens.len() {
        return Err(unexpected_token(tokens, pos, "name, string, or backtick"));
    }
    let token = &tokens[pos];
    match token.kind {
        TokenKind::Identifier => Ok(
            (Expression::Variable { name: token.text.clone(), span: token.span }, pos + 1),
        ),
        TokenKind::Backtick => Ok(
            (Expression::Backtick { command: token.text.clone(), span: token.span }, pos + 1),
        ),
        TokenKind::StringLiteral { raw } => Ok(
            (Expression::StringLiteral { text: token.text.clone(), raw }, pos + 1),
        ),
        _ => Err(unexpected_token(tokens, pos, "name, string, or backtick")),
    }
}

fn parse_expression(tokens: &Vec<Token>, pos: usize) -> (r: Result<(Expression, usize), Diagnostic>)
    ensures
        part(r) == expression(token_views(tokens@), pos as int),
        r matches Ok((_, next)) ==> pos < next <= tokens.len(),
{
    let (first, start) = match parse_value(tokens, pos) {
        Ok(found) => found,
        Err(error) => {
            return Err(error);
        },
    };
    let mut left = first;
    let mut at = start;
    loop
        invariant
            pos < at <= tokens.len(),
            expression_rest(token_views(tokens@), at as int, left@) == expression(
                token_views(tokens@),
                pos as int,
            ),
        decreases tokens.len() - at,
    {
        if at < tokens.len() && kind(tokens, at) == TokenKind::Plus {
            match parse_value(tokens, at + 1) {
                Ok((right, next)) => {
                    left = Expression::Concatenation { left: Box::new(left), right: Box::new(right) };
                    at = next;
                },
                Err(error) => {
                    return Err(error);
                },
            }
        } else {
            return Ok((left, at));
        }
    }
}

/// The value of what the parser gives for a list of parameters.
pub open spec fn parameters_part(r: Result<(Vec<Parameter>, usize), Diagnostic>) -> Parsed<
    Seq<ParameterView>,
> {
    match r {
        Ok((value, next)) => Parsed::Done { value: parameter_views(value@), next: next as int },
        Err(error) => Parsed::Failed { error: error@ },
    }
}

fn required_after_default(name: &String, span: Span) -> (d: Diagnostic)
    ensures
        d@ == failure_at(required_after_default_message(name@), span),
{
    let mut message = String::from_str("non-default parameter `");
    message.append(name.as_str());
    message.append("` follows default parameter");
    Diagnostic::at(message, span)
}

fn parse_parameters(tokens: &Vec<Token>, pos: usize) -> (r: Result<(Vec<Parameter>, usize), Diagnostic>)
    requires
        pos <= tokens.len(),
    ensures
        parameters_part(r) == parameters(token_views(tokens@), pos as int, Seq::empty(), false),
        r matches Ok((_, next)) ==> pos <= next <= tokens.len(),
{
    let mut done: Vec<Parameter> = Vec::new();
    let mut defaulted = false;
    let mut at = pos;
    assert(parameter_views(done@) =~= Seq::empty());
    loop
        invariant
            pos <= at <= tokens.len(),
            parameters(token_views(tokens@), at as int, parameter_views(done@), defaulted) == parameters(
                token_views(tokens@),
                pos as int,
                Seq::empty(),
                false,
            ),
        decreases tokens.len() - at,
    {
        if at < tokens.len() && kind(tokens, at) == TokenKind::Identifier {
            let ghost before = parameter_views(done@);
            if kind(tokens, at + 1) == TokenKind::Equals {
                match parse_expression(tokens, at + 2) {
                    Ok((default, next)) => {
                        let parameter = Parameter { name: tokens[at].text.clone(), default: Some(default) };
                        done.push(parameter);
                        assert(parameter_views(done@) =~= before.push(parameter@));
                        defaulted = true;
                        at = next;
                    },
                    Err(error) => {
                        return Err(error);
                    },
                }
            } else if defaulted {
                return Err(required_after_default(&tokens[at].text, tokens[at].span));
            } else {
                let parameter = Parameter { name: tokens[at].text.clone(), default: None };
                done.push(parameter);
                assert(parameter_views(done@) =~= before.push(parameter@));
                at = at + 1;
            }
        } else {
            return Ok((done, at));
        }
    }
}

/// The value of what the parser gives for a list of dependencies.
pub open spec fn dependencies_part(r: (Vec<Dependency>, usize)) -> Parsed<Seq<DependencyView>> {
    Parsed::Done { value: dependency_views(r.0@), next: r.1 as int }
}

fn parse_dependencies(tokens: &Vec<Token>, pos: usize) -> (r: (Vec<Dependency>, usize))
    requires
        pos <= tokens.len(),
    ensures
        dependencies_part(r) == dependencies(token_views(tokens@), pos as int, Seq::empty()),
        pos <= r.1 <= tokens.len(),
{
    let mut done: Vec<Dependency> = Vec::new();
    let mut at = pos;
    assert(dependency_views(done@) =~= Seq::empty());
    while at < tokens.len() && kind(tokens, at) == TokenKind::Identifier
        invariant
            pos <= at <= tokens.len(),
            dependencies(token_views(tokens@), at as int, dependency_views(done@)) == dependencies(
                token_views(tokens@),
                pos as int,
                Seq::empty(),
            ),
        decreases tokens.len() - at,
    {
        let ghost before = dependency_views(done@);
        let dependency = Dependency { name: tokens[at].text.clone(), span: tokens[at].span };
        done.push(dependency);
        assert(dependency_views(done@) =~= before.push(dependency@));
        at = at + 1;
    }
    (done, at)
}

/// The value of what the parser gives for the end of a line.
pub open spec fn end_part(r: Result<usize, Diagnostic>) -> Parsed<()> {
    match r {
        Ok(next) => Parsed::Done { value: (), next: next as int },
        Err(error) => Parsed::Failed { error: error@ },
    }
}

fn parse_end_of_line(tokens: &Vec<Token>, pos: usize) -> (r: Result<usize, Diagnostic>)
    requires
        pos <= tokens.len(),
    ensures
        end_part(r) == end_of_line(token_views(tokens@), pos as int),
        r matches Ok(next) ==> pos <= next <= tokens.len(),
{
    let at = if kind(tokens, pos) == TokenKind::Comment {
        pos + 1
    } else {
        pos
    };
    if kind(tokens, at) == TokenKind::Eol {
        Ok(at + 1)
    } else if kind(tokens, at) == TokenKind::Eof {
        Ok(at)
    } else {
        Err(unexpected_token(tokens, at, "end of line"))
    }
}

fn is_closed(tokens: &Vec<Token>, pos: usize) -> (b: bool)
    requires
        pos <= tokens.len(),
    ensures
        b == closes(token_views(tokens@), pos as int),
{
    let mut at = pos;
    loop
        invariant
            pos <= at <= tokens.len(),
            closes(token_views(tokens@), at as int) == closes(token_views(tokens@), pos as int),
        decreases tokens.len() - at,
    {
        if at >= tokens.len() {
            return false;
        }
        match tokens[at].kind {
            TokenKind::InterpolationEnd => {
                return true;
            },
            TokenKind::Eol | TokenKind::Eof | TokenKind::Dedent | TokenKind::Indent | TokenKind::Text
            | TokenKind::InterpolationStart => {
                return false;
            },
            _ => {
                at = at + 1;
            },
        }
    }
}

fn follows(tokens: &Vec<Token>, pos: usize) -> (b: bool)
    ensures
        b == line_follows(token_views(tokens@), pos as int),
{
    pos < tokens.len() && kind(tokens, pos) != TokenKind::Dedent && kind(tokens, pos) != TokenKind::Eof
}

/// The value of what the parser gives for the fragments of a line.
pub open spec fn fragments_part(r: Result<(Vec<Fragment>, usize), Diagnostic>) -> Parsed<
    Seq<FragmentView>,
> {
    match r {
        Ok((value, next)) => Parsed::Done { value: fragment_views(value@), next: next as int },
        Err(error) => Parsed::Failed { error: error@ },
    }
}

fn parse_fragments(tokens: &Vec<Token>, pos: usize) -> (r: Result<(Vec<Fragment>, usize), Diagnostic>)
    requires
        pos <= tokens.len(),
    ensures
        fragments_part(r) == fragments(token_views(tokens@), pos as int, Seq::empty()),
        r matches Ok((_, next)) ==> pos <= next <= tokens.len(),
{
    let mut done: Vec<Fragment> = Vec::new();
    let mut at = pos;
    assert(fragment_views(done@) =~= Seq::empty());
    loop
        invariant
            pos <= at <= tokens.len(),
            fragments(token_views(tokens@), at as int, fragment_views(done@)) == fragments(
                token_views(tokens@),
                pos as int,
                Seq::empty(),
            ),
        decreases tokens.len() - at,
    {
        if at >= tokens.len() {
            return Ok((done, at));
        }
        let ghost before = fragment_views(done@);
        match tokens[at].kind {
            TokenKind::Text => {
                let chars = chars_of(tokens[at].text.as_str());
                if chars.len() > 0 && chars[chars.len() - 1] == '\\' && kind(tokens, at + 1)
                    == TokenKind::Eol && follows(tokens, at + 2) {
                    let fragment = Fragment::Text { text: string_of_range(&chars, 0, chars.len() - 1) };
                    done.push(fragment);
                    assert(fragment_views(done@) =~= before.push(fragment@));
                    at = at + 2;
                } else {
                    let fragment = Fragment::Text { text: tokens[at].text.clone() };
                    done.push(fragment);
                    assert(fragment_views(done@) =~= before.push(fragment@));
                    at = at + 1;
                }
            },
            TokenKind::InterpolationStart => {
                if !is_closed(tokens, at + 1) {
                    return Err(Diagnostic::fixed("unterminated interpolation", tokens[at].span));
                }
                match parse_expression(tokens, at + 1) {
                    Ok((inner, next)) => {
                        if kind(tokens, next) == TokenKind::InterpolationEnd {
                            let fragment = Fragment::Interpolation { expression: inner };
                            done.push(fragment);
                            assert(fragment_views(done@) =~= before.push(fragment@));
                            at = next + 1;
                        } else {
                            return Err(unexpected_token(tokens, next, "\"+\" or }}"));
                        }
                    },
                    Err(error) => {
                        return Err(error);
                    },
                }
            },
            TokenKind::Eol => {
                return Ok((done, at + 1));
            },
            TokenKind::Dedent | TokenKind::Eof => {
                return Ok((done, at));
            },
            _ => {
                return Err(unexpected_token(tokens, at, "command text or {{"));
            },
        }
    }
}

fn first_chars(fragments: &Vec<Fragment>) -> (found: (Option<char>, Option<char>))
    ensures
        forall|c: char| starts_with_char(fragment_views(fragments@), c) <==> found.0 == Some(c),
        starts_with_shebang(fragment_views(fragments@)) <==> (found.0 == Some('#') && found.1 == Some(
            '!',
        )),
{
    if fragments.len() == 0 {
        return (None, None);
    }
    assert(fragment_views(fragments@)[0] == fragments@[0]@);
    match &fragments[0] {
        Fragment::Text { text } => {
            let length = text.as_str().unicode_len();
            if length == 0 {
                (None, None)
            } else if length == 1 {
                (Some(text.as_str().get_char(0)), None)
            } else {
                (Some(text.as_str().get_char(0)), Some(text.as_str().get_char(1)))
            }
        },
        Fragment::Interpolation { .. } => (None, None),
    }
}

fn make_line(fragments: Vec<Fragment>) -> (line: Line)
    ensures
        line@ == line_of(fragment_views(fragments@)),
{
    let found = first_chars(&fragments);
    let quiet = match found.0 {
        Some(c) => c == '@',
        None => false,
    };
    let shebang = match found {
        (Some(a), Some(b)) => a == '#' && b == '!',
        _ => false,
    };
    Line { fragments, quiet, shebang }
}

fn drop_trailing_blank(lines: &mut Vec<Line>)
    ensures
        line_views(final(lines)@) == without_trailing_blank(line_views(old(lines)@)),
{
    loop
        invariant
            without_trailing_blank(line_views(lines@)) == without_trailing_blank(line_views(old(lines)@)),
        decreases lines.len(),
    {
        let ghost before = line_views(lines@);
        if lines.len() > 0 && lines[lines.len() - 1].fragments.len() == 0 {
            assert(before.last() == lines@.last()@);
            assert(before.last().fragments.len() == lines@.last().fragments@.len());
            lines.pop();
            assert(line_views(lines@) =~= before.drop_last());
        } else {
            proof {
                if lines.len() > 0 {
                    assert(before.last() == lines@.last()@);
                    assert(before.last().fragments.len() == lines@.last().fragments@.len());
                }
            }
            return ;
        }
    }
}

/// The value of what the parser gives for the lines of a body.
pub open spec fn lines_part(r: Result<(Vec<Line>, usize), Diagnostic>) -> Parsed<Seq<LineView>> {
    match r {
        Ok((value, next)) => Parsed::Done { value: line_views(value@), next: next as int },
        Err(error) => Parsed::Failed { error: error@ },
    }
}

fn parse_body(tokens: &Vec<Token>, pos: usize) -> (r: Result<(Vec<Line>, usize), Diagnostic>)
    requires
        pos <= tokens.len(),
    ensures
        lines_part(r) == body(token_views(tokens@), pos as int, Seq::empty()),
        r matches Ok((_, next)) ==> pos <= next <= tokens.len(),
{
    let mut done: Vec<Line> = Vec::new();
    let mut at = pos;
    assert(line_views(done@) =~= Seq::empty());
    loop
        invariant
            pos <= at <= tokens.len(),
            body(token_views(tokens@), at as int, line_views(done@)) == body(
                token_views(tokens@),
                pos as int,
                Seq::empty(),
            ),
        decreases tokens.len() - at,
    {
        if at >= tokens.len() || kind(tokens, at) == TokenKind::Eof {
            drop_trailing_blank(&mut done);
            return Ok((done, at));
        } else if kind(tokens, at) == TokenKind::Dedent {
            drop_trailing_blank(&mut done);
            return Ok((done, at + 1));
        }
        proof {
            lemma_fragments_advance(token_views(tokens@), at as int, Seq::empty());
        }
        match parse_fragments(tokens, at) {
            Ok((fragments, next)) => {
                let ghost before = line_views(done@);
                let line = make_line(fragments);
                done.push(line);
                assert(line_views(done@) =~= before.push(line@));
                at = next;
            },
            Err(error) => {
                return Err(error);
            },
        }
    }
}

fn duplicate_recipe(name: &String, first: usize, again: usize, span: Span) -> (d: Diagnostic)
    ensures
        d@ == failure_at(duplicate_recipe_message(name@, (first + 1) as nat, (again + 1) as nat), span),
{
    let mut message = String::from_str("recipe `");
    message.append(name.as_str());
    message.append("` first defined on line ");
    push_successor(&mut message, first);
    message.append(" is redefined on line ");
    push_successor(&mut message, again);
    Diagnostic::at(message, span)
}

fn parse_recipe(
    tokens: &Vec<Token>,
    pos: usize,
    quiet: bool,
    doc: Option<String>,
    recipes: &Vec<Recipe>,
) -> (r: Result<(Recipe, usize), Diagnostic>)
    requires
        pos < tokens.len(),
    ensures
        part(r) == recipe(token_views(tokens@), pos as int, quiet, optional_text(doc), recipe_views(recipes@)),
        r matches Ok((_, next)) ==> pos < next <= tokens.len(),
{
    let name = &tokens[pos];
    proof {
        lemma_recipe_advances(
            token_views(tokens@),
            pos as int,
            quiet,
            optional_text(doc),
            recipe_views(recipes@),
        );
    }
    match find_recipe(recipes, &name.text) {
        Some(first) => {
            assert(recipe_views(recipes@)[first as int] == recipes@[first as int]@);
            let earlier = recipes[first].span.line;
            let later = name.span.line;
            return Err(duplicate_recipe(&name.text, earlier, later, name.span));
        },
        None => {},
    }
    let (parameters, colon) = match parse_parameters(tokens, pos + 1) {
        Ok(found) => found,
        Err(error) => {
            return Err(error);
        },
    };
    if kind(tokens, colon) != TokenKind::Colon {
        return Err(unexpected_token(tokens, colon, "name, \"=\", or \":\""));
    }
    let (dependencies, end) = parse_dependencies(tokens, colon + 1);
    let start = match parse_end_of_line(tokens, end) {
        Ok(start) => start,
        Err(error) => {
            return Err(error);
        },
    };
    let (lines, next) = if kind(tokens, start) == TokenKind::Indent {
        match parse_body(tokens, start + 1) {
            Ok(found) => found,
            Err(error) => {
                return Err(error);
            },
        }
    } else {
        let none: Vec<Line> = Vec::new();
        assert(line_views(none@) =~= Seq::empty());
        (none, start)
    };
    Ok(
        (
            Recipe {
                name: name.text.clone(),
                quiet,
                parameters,
                dependencies,
                lines,
                doc_comment: doc,
                span: name.span,
            },
            next,
        ),
    )
}

fn parse_assignment(tokens: &Vec<Token>, pos: usize, exported: bool, assignments: &Vec<Assignment>) -> (r:
    Result<(Assignment, usize), Diagnostic>)
    requires
        pos + 1 < tokens.len(),
    ensures
        part(r) == assignment(token_views(tokens@), pos as int, exported, assignment_views(assignments@)),
        r matches Ok((_, next)) ==> pos < next <= tokens.len(),
{
    let name = &tokens[pos];
    if find_assignment(assignments, &name.text).is_some() {
        let mut message = String::from_str("variable `");
        message.append(name.text.as_str());
        message.append("` has multiple definitions");
        return Err(Diagnostic::at(message, name.span));
    }
    let (expression, end) = match parse_expression(tokens, pos + 2) {
        Ok(found) => found,
        Err(error) => {
            return Err(error);
        },
    };
    match parse_end_of_line(tokens, end) {
        Ok(next) => Ok(
            (Assignment { name: name.text.clone(), expression, exported, span: name.span }, next),
        ),
        Err(error) => Err(error),
    }
}

fn scan_back(text: &Vec<char>) -> (start: usize)
    ensures
        start == blank_start(text@, text.len() as int),
        start <= text.len(),
{
    let mut to: usize = text.len();
    while to > 0 && blank(text[to - 1])
        invariant
            to <= text.len(),
            blank_start(text@, to as int) == blank_start(text@, text.len() as int),
        decreases to,
    {
        to -= 1;
    }
    to
}

fn comment_words(comment: &String) -> (words: String)
    ensures
        words@ == comment_text(comment@),
{
    let all = chars_of(comment.as_str());
    if all.len() == 0 {
        return String::new();
    }
    let mut rest: Vec<char> = Vec::new();
    let mut i: usize = 1;
    while i < all.len()
        invariant
            1 <= i <= all.len(),
            rest@ == all@.subrange(1, i as int),
        decreases all.len() - i,
    {
        rest.push(all[i]);
        i += 1;
        assert(all@.subrange(1, i as int) == all@.subrange(1, i - 1).push(all@[i - 1]));
    }
    assert(rest@ =~= all@.skip(1));
    let from = scan_blank(&rest, 0);
    let to = scan_back(&rest);
    if from < to {
        string_of_range(&rest, from, to)
    } else {
        String::new()
    }
}

/// Whether every parameter after one with a default has a default.
pub open spec fn defaults_last(parameters: Seq<ParameterView>) -> bool {
    forall|i: int, j: int|
        0 <= i < j < parameters.len() && (#[trigger] parameters[i]).default is Some ==> (#[trigger] parameters[j]).default is Some
}

/// Whether a parsed source is as the parser leaves it: no two recipes have
/// one name, no two assignments are to one variable, and in every recipe the
/// parameters with a default stand after those without.
pub open spec fn well_formed(file: JustfileView) -> bool {
    &&& forall|i: int, j: int|
        0 <= i < j < file.recipes.len() ==> (#[trigger] file.recipes[i]).name != (#[trigger] file.recipes[j]).name
    &&& forall|i: int, j: int|
        0 <= i < j < file.assignments.len() ==> (#[trigger] file.assignments[i]).name != (
        #[trigger] file.assignments[j]).name
    &&& forall|i: int| 0 <= i < file.recipes.len() ==> defaults_last((#[trigger] file.recipes[i]).parameters)
}

/// Of the parameters that are read, those with a default stand last.
pub proof fn lemma_parameters_defaults_last(
    tokens: Seq<TokenView>,
    pos: int,
    done: Seq<ParameterView>,
    defaulted: bool,
)
    requires
        defaults_last(done),
        !defaulted ==> forall|i: int| 0 <= i < done.len() ==> (#[trigger] done[i]).default is None,
    ensures
        parameters(tokens, pos, done, defaulted) matches Parsed::Done { value, .. } ==> defaults_last(value),
    decreases tokens.len() - pos,
{
    let token = token_at(tokens, pos);
    if 0 <= pos < tokens.len() && token.kind == TokenKind::Identifier {
        if kind_at(tokens, pos + 1) == TokenKind::Equals {
            lemma_expression_advances(tokens, pos + 2);
            if let Parsed::Done { value: default, next } = expression(tokens, pos + 2) {
                lemma_parameters_defaults_last(
                    tokens,
                    next,
                    done.push(ParameterView { name: token.text, default: Some(default) }),
                    true,
                );
            }
        } else if !defaulted {
            lemma_parameters_defaults_last(
                tokens,
                pos + 1,
                done.push(ParameterView { name: token.text, default: None }),
                false,
            );
        }
    }
}

/// What is added to a well-formed source leaves it well formed.
pub proof fn lemma_items_well_formed(tokens: Seq<TokenView>, pos: int, doc: Option<Seq<char>>, file: JustfileView)
    requires
        well_formed(file),
    ensures
        items(tokens, pos, doc, file) matches Ok(end) ==> well_formed(end),
    decreases tokens.len() - pos,
{
    let token = token_at(tokens, pos);
    if 0 <= pos < tokens.len() {
        match token.kind {
            TokenKind::Eol => {
                lemma_items_well_formed(tokens, pos + 1, None, file);
            },
            TokenKind::Comment => {
                if kind_at(tokens, pos + 1) == TokenKind::Eol {
                    lemma_items_well_formed(tokens, pos + 2, Some(comment_text(token.text)), file);
                } else if kind_at(tokens, pos + 1) == TokenKind::Eof {
                    lemma_items_well_formed(tokens, pos + 1, None, file);
                }
            },
            TokenKind::At => {
                if kind_at(tokens, pos + 1) == TokenKind::Identifier {
                    lemma_with_recipe(tokens, pos + 1, true, doc, file);
                }
            },
            TokenKind::Identifier => {
                if export_follows(tokens, pos) {
                    lemma_with_assignment(tokens, pos + 1, true, file);
                } else if kind_at(tokens, pos + 1) == TokenKind::Equals {
                    lemma_with_assignment(tokens, pos, false, file);
                } else {
                    lemma_with_recipe(tokens, pos, false, doc, file);
                }
            },
            _ => {},
        }
    }
}

proof fn lemma_with_recipe(tokens: Seq<TokenView>, pos: int, quiet: bool, doc: Option<Seq<char>>, file: JustfileView)
    requires
        well_formed(file),
        0 <= pos < tokens.len(),
    ensures
        recipe(tokens, pos, quiet, doc, file.recipes) matches Parsed::Done { value, next } ==> (items(
            tokens,
            next,
            None,
            JustfileView { recipes: file.recipes.push(value), ..file },
        ) matches Ok(end) ==> well_formed(end)),
    decreases tokens.len() - pos, 0int,
{
    lemma_recipe_advances(tokens, pos, quiet, doc, file.recipes);
    if let Parsed::Done { value, next } = recipe(tokens, pos, quiet, doc, file.recipes) {
        lemma_recipe_index(file.recipes, value.name, 0);
        lemma_parameters_defaults_last(tokens, pos + 1, Seq::empty(), false);
        let more = JustfileView { recipes: file.recipes.push(value), ..file };
        assert(well_formed(more));
        lemma_items_well_formed(tokens, next, None, more);
    }
}

proof fn lemma_with_assignment(tokens: Seq<TokenView>, pos: int, exported: bool, file: JustfileView)
    requires
        well_formed(file),
        0 <= pos < tokens.len(),
    ensures
        assignment(tokens, pos, exported, file.assignments) matches Parsed::Done { value, next } ==> (items(
            tokens,
            next,
            None,
            JustfileView { assignments: file.assignments.push(value), ..file },
        ) matches Ok(end) ==> well_formed(end)),
    decreases tokens.len() - pos, 0int,
{
    lemma_assignment_advances(tokens, pos, exported, file.assignments);
    if let Parsed::Done { value, next } = assignment(tokens, pos, exported, file.assignments) {
        lemma_assignment_index(file.assignments, value.name, 0);
        let more = JustfileView { assignments: file.assignments.push(value), ..file };
        assert(well_formed(more));
        lemma_items_well_formed(tokens, next, None, more);
    }
}

/// A source that was parsed is well formed: the names of its recipes differ,
/// the names of its variables differ, and no parameter without a default
/// follows one with a default.
pub proof fn lemma_parsed_well_formed(tokens: Seq<TokenView>)
    ensures
        parsed(tokens) matches Ok(file) ==> well_formed(file),
{
    lemma_items_well_formed(tokens, 0, None, JustfileView { assignments: Seq::empty(), recipes: Seq::empty() });
}

/// Reads tokens into the assignments and recipes that they stand for.
///
/// The result is `parsed` of the tokens: the assignments and the recipes in
/// the order of the source, or the first failure. A parameter without a
/// default after one with a default, a second recipe or a second variable of
/// one name, and `{{` that is not closed on its line are refused, each at the
/// token that is at fault.
pub fn parse(tokens: &Vec<Token>) -> (r: Result<Justfile, Diagnostic>)
    ensures
        match r {
            Ok(file) => parsed(token_views(tokens@)) == Ok::<JustfileView, DiagnosticView>(file@)
                && well_formed(file@),
            Err(error) => parsed(token_views(tokens@)) == Err::<JustfileView, DiagnosticView>(error@),
        },
{
    proof {
        lemma_parsed_well_formed(token_views(tokens@));
    }
    let mut assignments: Vec<Assignment> = Vec::new();
    let mut recipes: Vec<Recipe> = Vec::new();
    let mut doc: Option<String> = None;
    let mut at: usize = 0;
    assert(assignment_views(assignments@) =~= Seq::empty());
    assert(recipe_views(recipes@) =~= Seq::empty());
    loop
        invariant
            at <= tokens.len(),
            parsed(token_views(tokens@)) matches Ok(file) ==> well_formed(file),
            items(
                token_views(tokens@),
                at as int,
                optional_text(doc),
                JustfileView {
                    assignments: assignment_views(assignments@),
                    recipes: recipe_views(recipes@),
                },
            ) == parsed(token_views(tokens@)),
        decreases tokens.len() - at,
    {
        if at >= tokens.len() {
            return Ok(Justfile { assignments, recipes });
        }
        let ghost old_assignments = assignment_views(assignments@);
        let ghost old_recipes = recipe_views(recipes@);
        match tokens[at].kind {
            TokenKind::Eof => {
                return Ok(Justfile { assignments, recipes });
            },
            TokenKind::Eol => {
                doc = None;
                at = at + 1;
            },
            TokenKind::Comment => {
                if kind(tokens, at + 1) == TokenKind::Eol {
                    doc = Some(comment_words(&tokens[at].text));
                    at = at + 2;
                } else if kind(tokens, at + 1) == TokenKind::Eof {
                    doc = None;
                    at = at + 1;
                } else {
                    return Err(unexpected_token(tokens, at + 1, "end of line"));
                }
            },
            TokenKind::At => {
                if kind(tokens, at + 1) == TokenKind::Identifier {
                    match parse_recipe(tokens, at + 1, true, doc, &recipes) {
                        Ok((recipe, next)) => {
                            recipes.push(recipe);
                            assert(recipe_views(recipes@) =~= old_recipes.push(recipe@));
                            doc = None;
                            at = next;
                        },
                        Err(error) => {
                            return Err(error);
                        },
                    }
                } else {
                    return Err(unexpected_token(tokens, at + 1, "name"));
                }
            },
            TokenKind::Identifier => {
                let export = tokens[at].text == String::from_str("export") && kind(tokens, at + 1)
                    == TokenKind::Identifier && kind(tokens, at + 2) == TokenKind::Equals;
                if export || kind(tokens, at + 1) == TokenKind::Equals {
                    let name = if export {
                        at + 1
                    } else {
                        at
                    };
                    match parse_assignment(tokens, name, export, &assignments) {
                        Ok((assignment, next)) => {
                            assignments.push(assignment);
                            assert(assignment_views(assignments@) =~= old_assignments.push(assignment@));
                            doc = None;
                            at = next;
                        },
                        Err(error) => {
                            return Err(error);
                        },
                    }
                } else {
                    match parse_recipe(tokens, at, false, doc, &recipes) {
                        Ok((recipe, next)) => {
                            recipes.push(recipe);
                            assert(recipe_views(recipes@) =~= old_recipes.push(recipe@));
                            doc = None;
                            at = next;
                        },
                        Err(error) => {
                            return Err(error);
                        },
                    }
                }
            },
            _ => {
                return Err(unexpected_token(tokens, at, "name or \"@\""));
            },
        }
    }
}

} // verus!
