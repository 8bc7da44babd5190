use vstd::prelude::*;
use vstd::string::StringExecFns;
use crate::ast::{
    assignment_index, assignment_views, find_assignment, parameter_views, recipe_views, Assignment,
    AssignmentView, Expression, ExpressionView, Fragment, FragmentView, Justfile, JustfileView,
    LineView, Parameter, ParameterView, Recipe, RecipeView,
};
use crate::diagnostic::{failure_at, Diagnostic, DiagnosticView, Span};
use crate::evaluator::undefined_variable_message;

verus! {

/// Whether one of `parameters` at or after index `from` is named `name`.
pub open spec fn has_parameter(parameters: Seq<ParameterView>, name: Seq<char>, from: int) -> bool
    decreases parameters.len() - from,
{
    if !(0 <= from < parameters.len()) {
        false
    } else if parameters[from].name == name {
        true
    } else {
        has_parameter(parameters, name, from + 1)
    }
}

/// A reference to a variable: the name and the place where it stands.
pub struct Reference {
    pub name: Seq<char>,
    pub span: Span,
}

/// The first reference in `e`, from left to right, to a name that is neither
/// assigned to nor a parameter in scope.
pub open spec fn undefined_in(
    assignments: Seq<AssignmentView>,
    parameters: Seq<ParameterView>,
    e: ExpressionView,
) -> Option<Reference>
    decreases e,
{
    match e {
        ExpressionView::Variable { name, span } => {
            if has_parameter(parameters, name, 0) || assignment_index(assignments, name) is Some {
                None
            } else {
                Some(Reference { name, span })
            }
        },
        ExpressionView::Concatenation { left, right } => match undefined_in(assignments, parameters, *left) {
            Some(found) => Some(found),
            None => undefined_in(assignments, parameters, *right),
        },
        _ => None,
    }
}

/// The first such reference in the assignments from index `i` on.
pub open spec fn undefined_in_assignments(assignments: Seq<AssignmentView>, i: int) -> Option<Reference>
    decreases assignments.len() - i,
{
    if !(0 <= i < assignments.len()) {
        None
    } else {
        match undefined_in(assignments, Seq::empty(), assignments[i].expression) {
            Some(found) => Some(found),
            None => undefined_in_assignments(assignments, i + 1),
        }
    }
}

/// The first such reference in the defaults of `parameters` from index `j`
/// on. A default sees the variables, not the other parameters.
pub open spec fn undefined_in_defaults(
    assignments: Seq<AssignmentView>,
    parameters: Seq<ParameterView>,
    j: int,
) -> Option<Reference>
    decreases parameters.len() - j,
{
    if !(0 <= j < parameters.len()) {
        None
    } else {
        match parameters[j].default {
            Some(e) => match undefined_in(assignments, Seq::empty(), e) {
                Some(found) => Some(found),
                None => undefined_in_defaults(assignments, parameters, j + 1),
            },
            None => undefined_in_defaults(assignments, parameters, j + 1),
        }
    }
}

/// The first such reference in `fragments` from index `k` on.
pub open spec fn undefined_in_fragments(
    assignments: Seq<AssignmentView>,
    parameters: Seq<ParameterView>,
    fragments: Seq<FragmentView>,
    k: int,
) -> Option<Reference>
    decreases fragments.len() - k,
{
    if !(0 <= k < fragments.len()) {
        None
    } else {
        match fragments[k] {
            FragmentView::Interpolation { expression } => match undefined_in(
                assignments,
                parameters,
                expression,
            ) {
                Some(found) => Some(found),
                None => undefined_in_fragments(assignments, parameters, fragments, k + 1),
            },
            FragmentView::Text { .. } => undefined_in_fragments(assignments, parameters, fragments, k + 1),
        }
    }
}

/// The first such reference in `lines` from index `l` on.
pub open spec fn undefined_in_lines(
    assignments: Seq<AssignmentView>,
    parameters: Seq<ParameterView>,
    lines: Seq<LineView>,
    l: int,
) -> Option<Reference>
    decreases lines.len() - l,
{
    if !(0 <= l < lines.len()) {
        None
    } else {
        match undefined_in_fragments(assignments, parameters, lines[l].fragments, 0) {
            Some(found) => Some(found),
            None => undefined_in_lines(assignments, parameters, lines, l + 1),
        }
    }
}

/// The first such reference in the recipes from index `r` on: in the
/// defaults of a recipe first, then in its body.
pub open spec fn undefined_in_recipes(
    assignments: Seq<AssignmentView>,
    recipes: Seq<RecipeView>,
    r: int,
) -> Option<Reference>
    decreases recipes.len() - r,
{
    if !(0 <= r < recipes.len()) {
        None
    } else {
        match undefined_in_defaults(assignments, recipes[r].parameters, 0) {
            Some(found) => Some(found),
            None => match undefined_in_lines(assignments, recipes[r].parameters, recipes[r].lines, 0) {
                Some(found) => Some(found),
                None => undefined_in_recipes(assignments, recipes, r + 1),
            },
        }
    }
}

/// The first reference in the source to a name that stands for nothing: the
/// assignments are gone through first, then the recipes.
pub open spec fn first_undefined(file: JustfileView) -> Option<Reference> {
    match undefined_in_assignments(file.assignments, 0) {
        Some(found) => Some(found),
        None => undefined_in_recipes(file.assignments, file.recipes, 0),
    }
}

/// The failure for a reference to a name that stands for nothing.
pub open spec fn undefined_variable(reference: Reference) -> DiagnosticView {
    failure_at(undefined_variable_message(reference.name), reference.span)
}

/// What the search gave: nothing, or the failure for what it found.
pub open spec fn found(r: Result<(), Diagnostic>) -> Option<DiagnosticView> {
    match r {
        Ok(_) => None,
        Err(error) => Some(error@),
    }
}

/// The failure for what a search found, if it found anything.
pub open spec fn reported(reference: Option<Reference>) -> Option<DiagnosticView> {
    match reference {
        Some(reference) => Some(undefined_variable(reference)),
        None => None,
    }
}

fn named(parameters: &Vec<Parameter>, name: &String) -> (b: bool)
    ensures
        b == has_parameter(parameter_views(parameters@), name@, 0),
{
    let mut j: usize = 0;
    while j < parameters.len()
        invariant
            j <= parameters.len(),
            has_parameter(parameter_views(parameters@), name@, j as int) == has_parameter(
                parameter_views(parameters@),
                name@,
                0,
            ),
        decreases parameters.len() - j,
    {
        assert(parameter_views(parameters@)[j as int] == parameters@[j as int]@);
        if parameters[j].name == *name {
            return true;
        }
        j += 1;
    }
    false
}

fn check_expression(assignments: &Vec<Assignment>, parameters: &Vec<Parameter>, e: &Expression) -> (r: Result<
    (),
    Diagnostic,
>)
    ensures
        found(r) == reported(undefined_in(assignment_views(assignments@), parameter_views(parameters@), e@)),
    decreases e,
{
    match e {
        Expression::Variable { name, span } => {
            if named(parameters, name) || find_assignment(assignments, name).is_some() {
                Ok(())
            } else {
                let mut message = String::from_str("variable `");
                message.append(name.as_str());
                message.append("` not defined");
                Err(Diagnostic::at(message, *span))
            }
        },
        Expression::Concatenation { left, right } => {
            match check_expression(assignments, parameters, left) {
                Err(error) => Err(error),
                Ok(_) => check_expression(assignments, parameters, right),
            }
        },
        _ => Ok(()),
    }
}

fn check_recipe(assignments: &Vec<Assignment>, recipe: &Recipe) -> (r: Result<(), Diagnostic>)
    ensures
        found(r) == reported(
            match undefined_in_defaults(assignment_views(assignments@), recipe@.parameters, 0) {
                Some(reference) => Some(reference),
                None => undefined_in_lines(assignment_views(assignments@), recipe@.parameters, recipe@.lines, 0),
            },
        ),
{
    let ghost known = assignment_views(assignments@);
    let none: Vec<Parameter> = Vec::new();
    assert(parameter_views(none@) =~= Seq::empty());
    let mut j: usize = 0;
    while j < recipe.parameters.len()
        invariant
            j <= recipe.parameters.len(),
            known == assignment_views(assignments@),
            parameter_views(none@) == Seq::<ParameterView>::empty(),
            undefined_in_defaults(known, recipe@.parameters, j as int) == undefined_in_defaults(
                known,
                recipe@.parameters,
                0,
            ),
        decreases recipe.parameters.len() - j,
    {
        assert(recipe@.parameters[j as int] == recipe.parameters@[j as int]@);
        if let Some(e) = &recipe.parameters[j].default {
            if let Err(error) = check_expression(assignments, &none, e) {
                return Err(error);
            }
        }
        j += 1;
    }
    let mut l: usize = 0;
    while l < recipe.lines.len()
        invariant
            l <= recipe.lines.len(),
            known == assignment_views(assignments@),
            undefined_in_defaults(known, recipe@.parameters, 0) is None,
            undefined_in_lines(known, recipe@.parameters, recipe@.lines, l as int) == undefined_in_lines(
                known,
                recipe@.parameters,
                recipe@.lines,
                0,
            ),
        decreases recipe.lines.len() - l,
    {
        let line = &recipe.lines[l];
        assert(recipe@.lines[l as int] == line@);
        let mut k: usize = 0;
        while k < line.fragments.len()
            invariant
                k <= line.fragments.len(),
                l < recipe.lines.len(),
                known == assignment_views(assignments@),
                recipe@.lines[l as int] == line@,
                undefined_in_defaults(known, recipe@.parameters, 0) is None,
                undefined_in_fragments(known, recipe@.parameters, line@.fragments, k as int)
                    == undefined_in_fragments(known, recipe@.parameters, line@.fragments, 0),
                undefined_in_lines(known, recipe@.parameters, recipe@.lines, l as int) == undefined_in_lines(
                    known,
                    recipe@.parameters,
                    recipe@.lines,
                    0,
                ),
            decreases line.fragments.len() - k,
        {
            assert(line@.fragments[k as int] == line.fragments@[k as int]@);
            if let Fragment::Interpolation { expression } = &line.fragments[k] {
                if let Err(error) = check_expression(assignments, &recipe.parameters, expression) {
                    return Err(error);
                }
            }
            k += 1;
        }
        l += 1;
    }
    Ok(())
}

/// Looks for a reference to a name that stands for nothing: no variable is
/// assigned under it, and it is no parameter of the recipe that it stands in.
///
/// The failure is about the first such reference, the assignments taken
/// before the recipes, each in the order of the source.
pub fn check_variables(justfile: &Justfile) -> (r: Result<(), Diagnostic>)
    ensures
        found(r) == reported(first_undefined(justfile@)),
{
    let assignments = &justfile.assignments;
    let ghost known = assignment_views(assignments@);
    let none: Vec<Parameter> = Vec::new();
    assert(parameter_views(none@) =~= Seq::empty());
    let mut i: usize = 0;
    while i < assignments.len()
        invariant
            i <= assignments.len(),
            known == assignment_views(assignments@),
            assignments@ == justfile.assignments@,
            parameter_views(none@) == Seq::<ParameterView>::empty(),
            undefined_in_assignments(known, i as int) == undefined_in_assignments(known, 0),
        decreases assignments.len() - i,
    {
        assert(known[i as int] == assignments@[i as int]@);
        if let Err(error) = check_expression(assignments, &none, &assignments[i].expression) {
            return Err(error);
        }
        i += 1;
    }
    let recipes = &justfile.recipes;
    let mut r: usize = 0;
    while r < recipes.len()
        invariant
            r <= recipes.len(),
            known == assignment_views(assignments@),
            assignments@ == justfile.assignments@,
            recipes@ == justfile.recipes@,
            undefined_in_assignments(known, 0) is None,
            undefined_in_recipes(known, recipe_views(recipes@), r as int) == undefined_in_recipes(
                known,
                recipe_views(recipes@),
                0,
            ),
        decreases recipes.len() - r,
    {
        assert(recipe_views(recipes@)[r as int] == recipes@[r as int]@);
        if let Err(error) = check_recipe(assignments, &recipes[r]) {
            return Err(error);
        }
        r += 1;
    }
    Ok(())
}

} // verus!
