use vstd::prelude::*;
use vstd::string::StringExecFns;
use crate::ast::{
    assignment_index, assignment_views, dependency_views, find_assignment, find_recipe,
    fragment_views, line_views, parameter_views, recipe_index, recipe_views, Assignment,
    AssignmentView, Dependency, DependencyView, Expression, ExpressionView, Fragment, FragmentView,
    Justfile, JustfileView, Line, LineView, Parameter, ParameterView, Recipe, RecipeView,
};
use crate::diagnostic::{push_repeated, repeated, Diagnostic, DiagnosticView};
use crate::evaluator::{binding_views, bound, lookup, ContextView, EvaluationContext};
use crate::invocation::{in_order, insert_name, inserted, lemma_inserted_in_order};
use crate::resolver::{text_views, unknown_recipes, unknown_recipes_failure};
use crate::text::chars_of;

verus! {

/// How a character of a string is written between quotes: a tab, a carriage
/// return, a newline, a quote and a backslash by their escapes, any other
/// character as it is.
pub open spec fn escaped_char(c: char) -> Seq<char> {
    if c == '\t' {
        "\\t"@
    } else if c == '\r' {
        "\\r"@
    } else if c == '\n' {
        "\\n"@
    } else if c == '\'' {
        "\\'"@
    } else if c == '"' {
        "\\\""@
    } else if c == '\\' {
        "\\\\"@
    } else {
        seq![c]
    }
}

/// The characters of `text` from index `i` on, escaped, after `done`.
pub open spec fn escaped(text: Seq<char>, i: int, done: Seq<char>) -> Seq<char>
    decreases text.len() - i,
{
    if !(0 <= i < text.len()) {
        done
    } else {
        escaped(text, i + 1, done + escaped_char(text[i]))
    }
}

/// An expression as it is written in a source: a raw string between single
/// quotes as it is, any other string between double quotes with its escapes,
/// a backtick between backticks, and the sides of a concatenation with ` + `
/// between them.
pub open spec fn written(e: ExpressionView) -> Seq<char>
    decreases e,
{
    match e {
        ExpressionView::StringLiteral { text, raw } => if raw {
            "'"@ + text + "'"@
        } else {
            "\""@ + escaped(text, 0, Seq::empty()) + "\""@
        },
        ExpressionView::Variable { name, .. } => name,
        ExpressionView::Backtick { command, .. } => "`"@ + command + "`"@,
        ExpressionView::Concatenation { left, right } => written(*left) + " + "@ + written(*right),
    }
}

/// A parameter as it is listed: its name, and its default after `=`; a
/// default that is a string stands between single quotes, with its escapes.
pub open spec fn written_parameter(p: ParameterView) -> Seq<char> {
    match p.default {
        None => p.name,
        Some(ExpressionView::StringLiteral { text, .. }) => p.name + "='"@ + escaped(text, 0, Seq::empty())
            + "'"@,
        Some(e) => p.name + "="@ + written(e),
    }
}

/// The parameters from index `j` on, a space before each, after `done`.
pub open spec fn written_parameters(parameters: Seq<ParameterView>, j: int, done: Seq<char>) -> Seq<char>
    decreases parameters.len() - j,
{
    if !(0 <= j < parameters.len()) {
        done
    } else {
        written_parameters(parameters, j + 1, done + " "@ + written_parameter(parameters[j]))
    }
}

/// The names of the dependencies from index `k` on, a space before each,
/// after `done`.
pub open spec fn written_dependencies(dependencies: Seq<DependencyView>, k: int, done: Seq<char>) -> Seq<char>
    decreases dependencies.len() - k,
{
    if !(0 <= k < dependencies.len()) {
        done
    } else {
        written_dependencies(dependencies, k + 1, done + " "@ + dependencies[k].name)
    }
}

/// The fragments of a line from index `k` on, after `done`.
pub open spec fn written_fragments(fragments: Seq<FragmentView>, k: int, done: Seq<char>) -> Seq<char>
    decreases fragments.len() - k,
{
    if !(0 <= k < fragments.len()) {
        done
    } else {
        match fragments[k] {
            FragmentView::Text { text } => written_fragments(fragments, k + 1, done + text),
            FragmentView::Interpolation { expression } => written_fragments(
                fragments,
                k + 1,
                done + "{{"@ + written(expression) + "}}"@,
            ),
        }
    }
}

/// The lines of a body from index `l` on, each on a line of its own and
/// indented by four spaces, after `done`.
pub open spec fn written_lines(lines: Seq<LineView>, l: int, done: Seq<char>) -> Seq<char>
    decreases lines.len() - l,
{
    if !(0 <= l < lines.len()) {
        done
    } else if lines[l].fragments.len() == 0 {
        written_lines(lines, l + 1, done + "\n"@)
    } else {
        written_lines(lines, l + 1, done + "\n    "@ + written_fragments(lines[l].fragments, 0, Seq::empty()))
    }
}

/// The head of a recipe: its name, with `@` before it if it is quiet, and
/// its parameters.
pub open spec fn written_head(recipe: RecipeView) -> Seq<char> {
    written_parameters(
        recipe.parameters,
        0,
        (if recipe.quiet {
            "@"@
        } else {
            Seq::empty()
        }) + recipe.name,
    )
}

/// A recipe as it is written in a source: its comment, its head, a colon,
/// its dependencies and its body.
pub open spec fn written_recipe(recipe: RecipeView) -> Seq<char> {
    written_lines(
        recipe.lines,
        0,
        written_dependencies(
            recipe.dependencies,
            0,
            (match recipe.doc_comment {
                Some(doc) => "# "@ + doc + "\n"@,
                None => Seq::empty(),
            }) + written_head(recipe) + ":"@,
        ),
    )
}

/// An assignment as it is written in a source.
pub open spec fn written_assignment(a: AssignmentView) -> Seq<char> {
    (if a.exported {
        "export "@
    } else {
        Seq::empty()
    }) + a.name + " = "@ + written(a.expression)
}

/// The names of the recipes from index `i` on, put in order into `done`.
pub open spec fn recipe_names(recipes: Seq<RecipeView>, i: int, done: Seq<Seq<char>>) -> Seq<Seq<char>>
    decreases recipes.len() - i,
{
    if !(0 <= i < recipes.len()) {
        done
    } else {
        recipe_names(recipes, i + 1, inserted(done, recipes[i].name, 0))
    }
}

/// The names of the assignments from index `i` on, put in order into `done`.
pub open spec fn assignment_names(assignments: Seq<AssignmentView>, i: int, done: Seq<Seq<char>>) -> Seq<
    Seq<char>,
>
    decreases assignments.len() - i,
{
    if !(0 <= i < assignments.len()) {
        done
    } else {
        assignment_names(assignments, i + 1, inserted(done, assignments[i].name, 0))
    }
}

/// `names` from index `i` on with a space between them, after `done`.
pub open spec fn spaced(names: Seq<Seq<char>>, i: int, done: Seq<char>) -> Seq<char>
    decreases names.len() - i,
{
    if !(0 <= i < names.len()) {
        done
    } else if i == 0 {
        spaced(names, i + 1, names[i])
    } else {
        spaced(names, i + 1, done + " "@ + names[i])
    }
}

/// The summary of a source: the names of its recipes on one line, in the
/// order of a dictionary.
pub open spec fn summarized(file: JustfileView) -> Seq<char> {
    spaced(recipe_names(file.recipes, 0, Seq::empty()), 0, Seq::empty()) + "\n"@
}

/// The line of the list for the recipe named `name`: its head, and its
/// comment after ` # `.
pub open spec fn list_line(recipes: Seq<RecipeView>, name: Seq<char>) -> Seq<char> {
    match recipe_index(recipes, name) {
        Some(i) => "    "@ + written_head(RecipeView { quiet: false, ..recipes[i] }) + (match recipes[i].doc_comment {
            Some(doc) => " # "@ + doc,
            None => Seq::empty(),
        }) + "\n"@,
        None => Seq::empty(),
    }
}

/// The lines of the list for the recipes named by `names` from index `i`
/// on, after `done`.
pub open spec fn list_lines(recipes: Seq<RecipeView>, names: Seq<Seq<char>>, i: int, done: Seq<char>) -> Seq<
    char,
>
    decreases names.len() - i,
{
    if !(0 <= i < names.len()) {
        done
    } else {
        list_lines(recipes, names, i + 1, done + list_line(recipes, names[i]))
    }
}

/// The list of the recipes of a source, in the order of a dictionary.
pub open spec fn listed_recipes(file: JustfileView) -> Seq<char> {
    list_lines(file.recipes, recipe_names(file.recipes, 0, Seq::empty()), 0, "Available recipes:\n"@)
}

/// What stands before an item of a dump: nothing before the first, an empty
/// line before any other.
pub open spec fn gap(done: Seq<char>) -> Seq<char> {
    if done.len() == 0 {
        Seq::empty()
    } else {
        "\n\n"@
    }
}

/// The assignments named by `names` from index `i` on, an empty line
/// between them, after `done`.
pub open spec fn dumped_assignments(
    assignments: Seq<AssignmentView>,
    names: Seq<Seq<char>>,
    i: int,
    done: Seq<char>,
) -> Seq<char>
    decreases names.len() - i,
{
    if !(0 <= i < names.len()) {
        done
    } else {
        match assignment_index(assignments, names[i]) {
            Some(at) => dumped_assignments(
                assignments,
                names,
                i + 1,
                done + gap(done) + written_assignment(assignments[at]),
            ),
            None => dumped_assignments(assignments, names, i + 1, done),
        }
    }
}

/// The recipes named by `names` from index `i` on, an empty line between
/// them, after `done`.
pub open spec fn dumped_recipes(recipes: Seq<RecipeView>, names: Seq<Seq<char>>, i: int, done: Seq<char>) -> Seq<
    char,
>
    decreases names.len() - i,
{
    if !(0 <= i < names.len()) {
        done
    } else {
        match recipe_index(recipes, names[i]) {
            Some(at) => dumped_recipes(recipes, names, i + 1, done + gap(done) + written_recipe(recipes[at])),
            None => dumped_recipes(recipes, names, i + 1, done),
        }
    }
}

/// A source written out again: its assignments, then its recipes, each in
/// the order of a dictionary.
pub open spec fn dumped(file: JustfileView) -> Seq<char> {
    dumped_recipes(
        file.recipes,
        recipe_names(file.recipes, 0, Seq::empty()),
        0,
        dumped_assignments(file.assignments, assignment_names(file.assignments, 0, Seq::empty()), 0, Seq::empty()),
    ) + "\n"@
}

/// The length of the longest of `names` from index `i` on, and at least
/// `least`.
pub open spec fn longest(names: Seq<Seq<char>>, i: int, least: nat) -> nat
    decreases names.len() - i,
{
    if !(0 <= i < names.len()) {
        least
    } else if names[i].len() > least {
        longest(names, i + 1, names[i].len())
    } else {
        longest(names, i + 1, least)
    }
}

/// The value that the variable `name` has in `context`: the value given on
/// the command line, else the computed one; no text if it has none.
pub open spec fn known_value(context: ContextView, name: Seq<char>) -> Seq<char> {
    match bound(context.overrides, name) {
        Some(value) => value,
        None => match bound(context.values, name) {
            Some(value) => value,
            None => Seq::empty(),
        },
    }
}

/// The number of spaces that bring a name of the length `length` to the
/// width `width`.
pub open spec fn padding(width: nat, length: nat) -> nat {
    if width > length {
        (width - length) as nat
    } else {
        0
    }
}

/// The lines for the variables named by `names` from index `i` on, after
/// `done`: the name, spaces up to the width `width`, and the value between
/// double quotes after ` = `.
pub open spec fn value_lines(context: ContextView, names: Seq<Seq<char>>, width: nat, i: int, done: Seq<char>) -> Seq<
    char,
>
    decreases names.len() - i,
{
    if !(0 <= i < names.len()) {
        done
    } else {
        value_lines(
            context,
            names,
            width,
            i + 1,
            done + names[i] + repeated(' ', padding(width, names[i].len())) + " = \""@ + known_value(
                context,
                names[i],
            ) + "\"\n"@,
        )
    }
}

/// The variables of a source with their values, in the order of a
/// dictionary, the values in one column.
pub open spec fn valued(file: JustfileView, context: ContextView) -> Seq<char> {
    let names = assignment_names(file.assignments, 0, Seq::empty());
    value_lines(context, names, longest(names, 0, 0), 0, Seq::empty())
}


/// What showing a recipe gives: the recipe written out, or the failure for a
/// name that no recipe has.
pub open spec fn shown_recipe(file: JustfileView, name: Seq<char>) -> Result<Seq<char>, DiagnosticView> {
    match recipe_index(file.recipes, name) {
        Some(i) => Ok(written_recipe(file.recipes[i]) + "\n"@),
        None => Err(unknown_recipes_failure(file.recipes, seq![name])),
    }
}

fn escape(text: &String) -> (out: String)
    ensures
        out@ == escaped(text@, 0, Seq::empty()),
{
    let chars = chars_of(text.as_str());
    let mut out = String::new();
    let mut i: usize = 0;
    while i < chars.len()
        invariant
            i <= chars.len(),
            chars@ == text@,
            escaped(text@, i as int, out@) == escaped(text@, 0, Seq::empty()),
        decreases chars.len() - i,
    {
        let c = chars[i];
        let ghost before = out@;
        if c == '\t' {
            out.append("\\t");
        } else if c == '\r' {
            out.append("\\r");
        } else if c == '\n' {
            out.append("\\n");
        } else if c == '\'' {
            out.append("\\'");
        } else if c == '"' {
            out.append("\\\"");
        } else if c == '\\' {
            out.append("\\\\");
        } else {
            out.push(c);
            assert(out@ =~= before + seq![c]);
        }
        i += 1;
    }
    out
}

fn write_expression(e: &Expression) -> (out: String)
    ensures
        out@ == written(e@),
    decreases e,
{
    match e {
        Expression::StringLiteral { text, raw } => {
            if *raw {
                let mut out = String::from_str("'");
                out.append(text.as_str());
                out.append("'");
                out
            } else {
                let mut out = String::from_str("\"");
                out.append(escape(text).as_str());
                out.append("\"");
                out
            }
        },
        Expression::Variable { name, .. } => name.clone(),
        Expression::Backtick { command, .. } => {
            let mut out = String::from_str("`");
            out.append(command.as_str());
            out.append("`");
            out
        },
        Expression::Concatenation { left, right } => {
            let mut out = write_expression(left);
            out.append(" + ");
            out.append(write_expression(right).as_str());
            out
        },
    }
}

fn write_parameter(p: &Parameter) -> (out: String)
    ensures
        out@ == written_parameter(p@),
{
    let mut out = p.name.clone();
    match &p.default {
        None => {},
        Some(Expression::StringLiteral { text, .. }) => {
            out.append("='");
            out.append(escape(text).as_str());
            out.append("'");
        },
        Some(e) => {
            out.append("=");
            out.append(write_expression(e).as_str());
        },
    }
    out
}

fn write_head(recipe: &Recipe, quiet: bool) -> (out: String)
    ensures
        out@ == written_head(RecipeView { quiet, ..recipe@ }),
{
    let mut out = if quiet {
        String::from_str("@")
    } else {
        String::new()
    };
    out.append(recipe.name.as_str());
    let ghost start = out@;
    let mut j: usize = 0;
    while j < recipe.parameters.len()
        invariant
            j <= recipe.parameters.len(),
            written_parameters(recipe@.parameters, j as int, out@) == written_parameters(
                recipe@.parameters,
                0,
                start,
            ),
        decreases recipe.parameters.len() - j,
    {
        assert(recipe@.parameters[j as int] == recipe.parameters@[j as int]@);
        out.append(" ");
        out.append(write_parameter(&recipe.parameters[j]).as_str());
        j += 1;
    }
    out
}

fn write_fragments(fragments: &Vec<Fragment>) -> (out: String)
    ensures
        out@ == written_fragments(fragment_views(fragments@), 0, Seq::empty()),
{
    let mut out = String::new();
    let mut k: usize = 0;
    while k < fragments.len()
        invariant
            k <= fragments.len(),
            written_fragments(fragment_views(fragments@), k as int, out@) == written_fragments(
                fragment_views(fragments@),
                0,
                Seq::empty(),
            ),
        decreases fragments.len() - k,
    {
        assert(fragment_views(fragments@)[k as int] == fragments@[k as int]@);
        match &fragments[k] {
            Fragment::Text { text } => {
                out.append(text.as_str());
            },
            Fragment::Interpolation { expression } => {
                out.append("{{");
                out.append(write_expression(expression).as_str());
                out.append("}}");
            },
        }
        k += 1;
    }
    out
}

fn write_recipe(recipe: &Recipe) -> (out: String)
    ensures
        out@ == written_recipe(recipe@),
{
    let mut out = match &recipe.doc_comment {
        Some(doc) => {
            let mut out = String::from_str("# ");
            out.append(doc.as_str());
            out.append("\n");
            out
        },
        None => String::new(),
    };
    out.append(write_head(recipe, recipe.quiet).as_str());
    out.append(":");
    let ghost head = out@;
    let mut k: usize = 0;
    while k < recipe.dependencies.len()
        invariant
            k <= recipe.dependencies.len(),
            written_dependencies(recipe@.dependencies, k as int, out@) == written_dependencies(
                recipe@.dependencies,
                0,
                head,
            ),
        decreases recipe.dependencies.len() - k,
    {
        assert(recipe@.dependencies[k as int] == recipe.dependencies@[k as int]@);
        out.append(" ");
        out.append(recipe.dependencies[k].name.as_str());
        k += 1;
    }
    let ghost top = out@;
    let mut l: usize = 0;
    while l < recipe.lines.len()
        invariant
            l <= recipe.lines.len(),
            written_lines(recipe@.lines, l as int, out@) == written_lines(recipe@.lines, 0, top),
        decreases recipe.lines.len() - l,
    {
        assert(recipe@.lines[l as int] == recipe.lines@[l as int]@);
        assert(recipe@.lines[l as int].fragments.len() == recipe.lines@[l as int].fragments@.len());
        if recipe.lines[l].fragments.len() == 0 {
            out.append("\n");
        } else {
            out.append("\n    ");
            out.append(write_fragments(&recipe.lines[l].fragments).as_str());
        }
        l += 1;
    }
    out
}

fn write_assignment(a: &Assignment) -> (out: String)
    ensures
        out@ == written_assignment(a@),
{
    let mut out = if a.exported {
        String::from_str("export ")
    } else {
        String::new()
    };
    out.append(a.name.as_str());
    out.append(" = ");
    out.append(write_expression(&a.expression).as_str());
    out
}

fn names_of_recipes(recipes: &Vec<Recipe>) -> (names: Vec<String>)
    ensures
        text_views(names@) == recipe_names(recipe_views(recipes@), 0, Seq::empty()),
{
    let mut names: Vec<String> = Vec::new();
    assert(text_views(names@) =~= Seq::empty());
    let mut i: usize = 0;
    while i < recipes.len()
        invariant
            i <= recipes.len(),
            recipe_names(recipe_views(recipes@), i as int, text_views(names@)) == recipe_names(
                recipe_views(recipes@),
                0,
                Seq::empty(),
            ),
        decreases recipes.len() - i,
    {
        assert(recipe_views(recipes@)[i as int] == recipes@[i as int]@);
        insert_name(&mut names, &recipes[i].name);
        i += 1;
    }
    names
}

fn names_of_assignments(assignments: &Vec<Assignment>) -> (names: Vec<String>)
    ensures
        text_views(names@) == assignment_names(assignment_views(assignments@), 0, Seq::empty()),
{
    let mut names: Vec<String> = Vec::new();
    assert(text_views(names@) =~= Seq::empty());
    let mut i: usize = 0;
    while i < assignments.len()
        invariant
            i <= assignments.len(),
            assignment_names(assignment_views(assignments@), i as int, text_views(names@))
                == assignment_names(assignment_views(assignments@), 0, Seq::empty()),
        decreases assignments.len() - i,
    {
        assert(assignment_views(assignments@)[i as int] == assignments@[i as int]@);
        insert_name(&mut names, &assignments[i].name);
        i += 1;
    }
    names
}

/// The names of the recipes on one line, in the order of a dictionary.
pub fn summary(justfile: &Justfile) -> (out: String)
    ensures
        out@ == summarized(justfile@),
{
    let names = names_of_recipes(&justfile.recipes);
    let mut out = String::new();
    let mut i: usize = 0;
    while i < names.len()
        invariant
            i <= names.len(),
            spaced(text_views(names@), i as int, out@) == spaced(text_views(names@), 0, Seq::empty()),
        decreases names.len() - i,
    {
        assert(text_views(names@)[i as int] == names@[i as int]@);
        if i == 0 {
            out = names[i].clone();
        } else {
            out.append(" ");
            out.append(names[i].as_str());
        }
        i += 1;
    }
    out.append("\n");
    out
}

/// The recipes with their parameters and their comments, one on a line, in
/// the order of a dictionary.
pub fn list(justfile: &Justfile) -> (out: String)
    ensures
        out@ == listed_recipes(justfile@),
{
    let recipes = &justfile.recipes;
    let names = names_of_recipes(recipes);
    let mut out = String::from_str("Available recipes:\n");
    let mut i: usize = 0;
    while i < names.len()
        invariant
            i <= names.len(),
            recipes@ == justfile.recipes@,
            list_lines(recipe_views(recipes@), text_views(names@), i as int, out@) == list_lines(
                recipe_views(recipes@),
                text_views(names@),
                0,
                "Available recipes:\n"@,
            ),
        decreases names.len() - i,
    {
        assert(text_views(names@)[i as int] == names@[i as int]@);
        let ghost before = out@;
        match find_recipe(recipes, &names[i]) {
            Some(at) => {
                assert(recipe_views(recipes@)[at as int] == recipes@[at as int]@);
                let mut line = String::from_str("    ");
                line.append(write_head(&recipes[at], false).as_str());
                let comment = match &recipes[at].doc_comment {
                    Some(doc) => {
                        let mut comment = String::from_str(" # ");
                        comment.append(doc.as_str());
                        comment
                    },
                    None => String::new(),
                };
                line.append(comment.as_str());
                line.append("\n");
                out.append(line.as_str());
            },
            None => {
                assert(out@ =~= before + Seq::<char>::empty());
            },
        }
        i += 1;
    }
    out
}

/// The source written out again.
pub fn dump(justfile: &Justfile) -> (out: String)
    ensures
        out@ == dumped(justfile@),
{
    let assignments = &justfile.assignments;
    let recipes = &justfile.recipes;
    let variables = names_of_assignments(assignments);
    let mut out = String::new();
    let mut i: usize = 0;
    while i < variables.len()
        invariant
            i <= variables.len(),
            assignments@ == justfile.assignments@,
            dumped_assignments(assignment_views(assignments@), text_views(variables@), i as int, out@)
                == dumped_assignments(
                assignment_views(assignments@),
                text_views(variables@),
                0,
                Seq::empty(),
            ),
        decreases variables.len() - i,
    {
        assert(text_views(variables@)[i as int] == variables@[i as int]@);
        if let Some(at) = find_assignment(assignments, &variables[i]) {
            assert(assignment_views(assignments@)[at as int] == assignments@[at as int]@);
            let ghost before = out@;
            if out.as_str().unicode_len() > 0 {
                out.append("\n\n");
            } else {
                assert(out@ =~= before + gap(before));
            }
            out.append(write_assignment(&assignments[at]).as_str());
        }
        i += 1;
    }
    let ghost first = out@;
    let names = names_of_recipes(recipes);
    let mut i: usize = 0;
    while i < names.len()
        invariant
            i <= names.len(),
            recipes@ == justfile.recipes@,
            dumped_recipes(recipe_views(recipes@), text_views(names@), i as int, out@) == dumped_recipes(
                recipe_views(recipes@),
                text_views(names@),
                0,
                first,
            ),
        decreases names.len() - i,
    {
        assert(text_views(names@)[i as int] == names@[i as int]@);
        if let Some(at) = find_recipe(recipes, &names[i]) {
            assert(recipe_views(recipes@)[at as int] == recipes@[at as int]@);
            let ghost before = out@;
            if out.as_str().unicode_len() > 0 {
                out.append("\n\n");
            } else {
                assert(out@ =~= before + gap(before));
            }
            out.append(write_recipe(&recipes[at]).as_str());
        }
        i += 1;
    }
    out.append("\n");
    out
}

/// The recipe named `name` written out, or the failure that says that there
/// is no such recipe, and which recipe may have been meant.
pub fn show(justfile: &Justfile, name: &String) -> (r: Result<String, Diagnostic>)
    ensures
        match r {
            Ok(out) => shown_recipe(justfile@, name@) == Ok::<Seq<char>, DiagnosticView>(out@),
            Err(error) => shown_recipe(justfile@, name@) == Err::<Seq<char>, DiagnosticView>(error@),
        },
{
    match find_recipe(&justfile.recipes, name) {
        Some(at) => {
            assert(justfile@.recipes[at as int] == justfile.recipes@[at as int]@);
            let mut out = write_recipe(&justfile.recipes[at]);
            out.append("\n");
            Ok(out)
        },
        None => {
            let mut names: Vec<String> = Vec::new();
            names.push(name.clone());
            assert(text_views(names@) =~= seq![name@]);
            Err(unknown_recipes(&justfile.recipes, &names))
        },
    }
}

/// The variables with the values that they have in `context`, one on a
/// line, in the order of a dictionary.
pub fn values(justfile: &Justfile, context: &EvaluationContext) -> (out: String)
    ensures
        out@ == valued(justfile@, context@),
{
    let names = names_of_assignments(&justfile.assignments);
    let mut width: usize = 0;
    let mut i: usize = 0;
    while i < names.len()
        invariant
            i <= names.len(),
            longest(text_views(names@), i as int, width as nat) == longest(text_views(names@), 0, 0),
        decreases names.len() - i,
    {
        assert(text_views(names@)[i as int] == names@[i as int]@);
        let length = names[i].as_str().unicode_len();
        if length > width {
            width = length;
        }
        i += 1;
    }
    let mut out = String::new();
    let mut i: usize = 0;
    while i < names.len()
        invariant
            i <= names.len(),
            width == longest(text_views(names@), 0, 0),
            value_lines(context@, text_views(names@), width as nat, i as int, out@) == value_lines(
                context@,
                text_views(names@),
                width as nat,
                0,
                Seq::empty(),
            ),
        decreases names.len() - i,
    {
        assert(text_views(names@)[i as int] == names@[i as int]@);
        let length = names[i].as_str().unicode_len();
        let value = match lookup(&context.overrides, &names[i]) {
            Some(value) => value,
            None => match lookup(&context.values, &names[i]) {
                Some(value) => value,
                None => String::new(),
            },
        };
        out.append(names[i].as_str());
        push_repeated(
            &mut out,
            ' ',
            if width > length {
                width - length
            } else {
                0
            },
        );
        out.append(" = \"");
        out.append(value.as_str());
        out.append("\"\n");
        i += 1;
    }
    out
}


/// The names of the recipes are listed in the order of a dictionary.
pub proof fn lemma_recipe_names_in_order(recipes: Seq<RecipeView>, i: int, done: Seq<Seq<char>>)
    requires
        in_order(done),
    ensures
        in_order(recipe_names(recipes, i, done)),
    decreases recipes.len() - i,
{
    if 0 <= i < recipes.len() {
        lemma_inserted_in_order(done, recipes[i].name, 0);
        lemma_recipe_names_in_order(recipes, i + 1, inserted(done, recipes[i].name, 0));
    }
}

/// The names of the variables are listed in the order of a dictionary.
pub proof fn lemma_assignment_names_in_order(assignments: Seq<AssignmentView>, i: int, done: Seq<Seq<char>>)
    requires
        in_order(done),
    ensures
        in_order(assignment_names(assignments, i, done)),
    decreases assignments.len() - i,
{
    if 0 <= i < assignments.len() {
        lemma_inserted_in_order(done, assignments[i].name, 0);
        lemma_assignment_names_in_order(assignments, i + 1, inserted(done, assignments[i].name, 0));
    }
}

} // verus!
