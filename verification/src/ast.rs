use vstd::prelude::*;
use crate::diagnostic::Span;

verus! {

/// An expression: what stands on the right of an assignment, as a parameter's
/// default or between `{{` and `}}`.
#[derive(Debug, PartialEq, Eq)]
pub enum Expression {
    /// A string, with its value; `raw` if it stood in single quotes.
    StringLiteral { text: String, raw: bool },
    /// The name of a variable or of a parameter, and where it stands.
    Variable { name: String, span: Span },
    /// A command whose output is the value, and where it stands.
    Backtick { command: String, span: Span },
    /// The value of `left` followed by the value of `right`.
    Concatenation { left: Box<Expression>, right: Box<Expression> },
}

/// The mathematical value of an [`Expression`].
pub enum ExpressionView {
    StringLiteral { text: Seq<char>, raw: bool },
    Variable { name: Seq<char>, span: Span },
    Backtick { command: Seq<char>, span: Span },
    Concatenation { left: Box<ExpressionView>, right: Box<ExpressionView> },
}

/// The value of the expression `e`.
pub open spec fn expression_view(e: Expression) -> ExpressionView
    decreases e,
{
    match e {
        Expression::StringLiteral { text, raw } => ExpressionView::StringLiteral { text: text@, raw },
        Expression::Variable { name, span } => ExpressionView::Variable { name: name@, span },
        Expression::Backtick { command, span } => ExpressionView::Backtick { command: command@, span },
        Expression::Concatenation { left, right } => ExpressionView::Concatenation {
            left: Box::new(expression_view(*left)),
            right: Box::new(expression_view(*right)),
        },
    }
}

impl View for Expression {
    type V = ExpressionView;

    open spec fn view(&self) -> ExpressionView {
        expression_view(*self)
    }
}

/// The views of the fragments of `fragments`, in order.
pub open spec fn fragment_views(fragments: Seq<Fragment>) -> Seq<FragmentView> {
    fragments.map_values(|f: Fragment| f@)
}

/// The views of the lines of `lines`, in order.
pub open spec fn line_views(lines: Seq<Line>) -> Seq<LineView> {
    lines.map_values(|l: Line| l@)
}

/// The views of the parameters of `parameters`, in order.
pub open spec fn parameter_views(parameters: Seq<Parameter>) -> Seq<ParameterView> {
    parameters.map_values(|p: Parameter| p@)
}

/// The views of the dependencies of `dependencies`, in order.
pub open spec fn dependency_views(dependencies: Seq<Dependency>) -> Seq<DependencyView> {
    dependencies.map_values(|d: Dependency| d@)
}

/// The view of an expression that may be missing.
pub open spec fn optional_view(e: Option<Expression>) -> Option<ExpressionView> {
    match e {
        Some(e) => Some(e@),
        None => None,
    }
}

/// The view of a text that may be missing.
pub open spec fn optional_text(s: Option<String>) -> Option<Seq<char>> {
    match s {
        Some(s) => Some(s@),
        None => None,
    }
}

/// An assignment `name = expression`, exported to the environment of the
/// commands if it was written after `export`.
#[derive(Debug, PartialEq, Eq)]
pub struct Assignment {
    pub name: String,
    pub expression: Expression,
    pub exported: bool,
    /// Where the name stands.
    pub span: Span,
}

pub struct AssignmentView {
    pub name: Seq<char>,
    pub expression: ExpressionView,
    pub exported: bool,
    pub span: Span,
}

impl View for Assignment {
    type V = AssignmentView;

    open spec fn view(&self) -> AssignmentView {
        AssignmentView {
            name: self.name@,
            expression: self.expression@,
            exported: self.exported,
            span: self.span,
        }
    }
}

/// A parameter of a recipe, with its default if it has one.
#[derive(Debug, PartialEq, Eq)]
pub struct Parameter {
    pub name: String,
    pub default: Option<Expression>,
}

pub struct ParameterView {
    pub name: Seq<char>,
    pub default: Option<ExpressionView>,
}

impl View for Parameter {
    type V = ParameterView;

    open spec fn view(&self) -> ParameterView {
        ParameterView { name: self.name@, default: optional_view(self.default) }
    }
}

/// A piece of a body line.
#[derive(Debug, PartialEq, Eq)]
pub enum Fragment {
    /// Literal text.
    Text { text: String },
    /// An expression between `{{` and `}}`.
    Interpolation { expression: Expression },
}

pub enum FragmentView {
    Text { text: Seq<char> },
    Interpolation { expression: ExpressionView },
}

impl View for Fragment {
    type V = FragmentView;

    open spec fn view(&self) -> FragmentView {
        match self {
            Fragment::Text { text } => FragmentView::Text { text: text@ },
            Fragment::Interpolation { expression } => FragmentView::Interpolation { expression: expression@ },
        }
    }
}

/// A line of a recipe body, continuation lines joined to it.
#[derive(Debug, PartialEq, Eq)]
pub struct Line {
    pub fragments: Vec<Fragment>,
    /// Whether the line starts with `@`.
    pub quiet: bool,
    /// Whether the line starts with `#!`.
    pub shebang: bool,
}

pub struct LineView {
    pub fragments: Seq<FragmentView>,
    pub quiet: bool,
    pub shebang: bool,
}

impl View for Line {
    type V = LineView;

    open spec fn view(&self) -> LineView {
        LineView {
            fragments: fragment_views(self.fragments@),
            quiet: self.quiet,
            shebang: self.shebang,
        }
    }
}

/// The name of a recipe that another recipe depends on, and where it stands.
#[derive(Debug, PartialEq, Eq)]
pub struct Dependency {
    pub name: String,
    pub span: Span,
}

pub struct DependencyView {
    pub name: Seq<char>,
    pub span: Span,
}

impl View for Dependency {
    type V = DependencyView;

    open spec fn view(&self) -> DependencyView {
        DependencyView { name: self.name@, span: self.span }
    }
}

/// A recipe.
#[derive(Debug, PartialEq, Eq)]
pub struct Recipe {
    pub name: String,
    /// Whether `@` stood before the name.
    pub quiet: bool,
    pub parameters: Vec<Parameter>,
    pub dependencies: Vec<Dependency>,
    pub lines: Vec<Line>,
    pub doc_comment: Option<String>,
    /// Where the name stands.
    pub span: Span,
}

pub struct RecipeView {
    pub name: Seq<char>,
    pub quiet: bool,
    pub parameters: Seq<ParameterView>,
    pub dependencies: Seq<DependencyView>,
    pub lines: Seq<LineView>,
    pub doc_comment: Option<Seq<char>>,
    pub span: Span,
}

impl View for Recipe {
    type V = RecipeView;

    open spec fn view(&self) -> RecipeView {
        RecipeView {
            name: self.name@,
            quiet: self.quiet,
            parameters: parameter_views(self.parameters@),
            dependencies: dependency_views(self.dependencies@),
            lines: line_views(self.lines@),
            doc_comment: optional_text(self.doc_comment),
            span: self.span,
        }
    }
}

/// A parsed source: its assignments and its recipes, each in the order in
/// which they stand in the source.
#[derive(Debug, PartialEq, Eq)]
pub struct Justfile {
    pub assignments: Vec<Assignment>,
    pub recipes: Vec<Recipe>,
}

pub struct JustfileView {
    pub assignments: Seq<AssignmentView>,
    pub recipes: Seq<RecipeView>,
}

impl View for Justfile {
    type V = JustfileView;

    open spec fn view(&self) -> JustfileView {
        JustfileView {
            assignments: assignment_views(self.assignments@),
            recipes: recipe_views(self.recipes@),
        }
    }
}

/// The index of the first recipe named `name` among `recipes` at or after
/// index `from`, if there is one.
pub open spec fn recipe_index_from(recipes: Seq<RecipeView>, name: Seq<char>, from: int) -> Option<int>
    decreases recipes.len() - from,
{
    if !(0 <= from < recipes.len()) {
        None
    } else if recipes[from].name == name {
        Some(from)
    } else {
        recipe_index_from(recipes, name, from + 1)
    }
}

/// The index of the first recipe named `name` among `recipes`, if there is one.
pub open spec fn recipe_index(recipes: Seq<RecipeView>, name: Seq<char>) -> Option<int> {
    recipe_index_from(recipes, name, 0)
}

/// The index of the first assignment to `name` among `assignments` at or
/// after index `from`, if there is one.
pub open spec fn assignment_index_from(assignments: Seq<AssignmentView>, name: Seq<char>, from: int) -> Option<
    int,
>
    decreases assignments.len() - from,
{
    if !(0 <= from < assignments.len()) {
        None
    } else if assignments[from].name == name {
        Some(from)
    } else {
        assignment_index_from(assignments, name, from + 1)
    }
}

/// The index of the first assignment to `name` among `assignments`, if there
/// is one.
pub open spec fn assignment_index(assignments: Seq<AssignmentView>, name: Seq<char>) -> Option<int> {
    assignment_index_from(assignments, name, 0)
}

/// The views of the recipes of `recipes`, in order.
pub open spec fn recipe_views(recipes: Seq<Recipe>) -> Seq<RecipeView> {
    recipes.map_values(|r: Recipe| r@)
}

/// The views of the assignments of `assignments`, in order.
pub open spec fn assignment_views(assignments: Seq<Assignment>) -> Seq<AssignmentView> {
    assignments.map_values(|a: Assignment| a@)
}

/// What `recipe_index_from` finds is the first recipe of that name.
pub proof fn lemma_recipe_index(recipes: Seq<RecipeView>, name: Seq<char>, from: int)
    requires
        0 <= from,
    ensures
        match recipe_index_from(recipes, name, from) {
            Some(i) => from <= i < recipes.len() && recipes[i].name == name && forall|j: int|
                from <= j < i ==> (#[trigger] recipes[j]).name != name,
            None => forall|j: int| from <= j < recipes.len() ==> (#[trigger] recipes[j]).name != name,
        },
    decreases recipes.len() - from,
{
    if from < recipes.len() && recipes[from].name != name {
        lemma_recipe_index(recipes, name, from + 1);
    }
}

/// What `assignment_index_from` finds is the first assignment to that name.
pub proof fn lemma_assignment_index(assignments: Seq<AssignmentView>, name: Seq<char>, from: int)
    requires
        0 <= from,
    ensures
        match assignment_index_from(assignments, name, from) {
            Some(i) => from <= i < assignments.len() && assignments[i].name == name && forall|j: int|
                from <= j < i ==> (#[trigger] assignments[j]).name != name,
            None => forall|j: int|
                from <= j < assignments.len() ==> (#[trigger] assignments[j]).name != name,
        },
    decreases assignments.len() - from,
{
    if from < assignments.len() && assignments[from].name != name {
        lemma_assignment_index(assignments, name, from + 1);
    }
}

/// The index of the first recipe named `name`.
pub fn find_recipe(recipes: &Vec<Recipe>, name: &String) -> (found: Option<usize>)
    ensures
        match found {
            Some(i) => recipe_index(recipe_views(recipes@), name@) == Some(i as int) && i < recipes.len(),
            None => recipe_index(recipe_views(recipes@), name@) is None,
        },
{
    let mut i: usize = 0;
    while i < recipes.len()
        invariant
            i <= recipes.len(),
            recipe_index_from(recipe_views(recipes@), name@, i as int) == recipe_index(
                recipe_views(recipes@),
                name@,
            ),
        decreases recipes.len() - i,
    {
        if recipes[i].name == *name {
            return Some(i);
        }
        i += 1;
    }
    None
}

/// The index of the first assignment to `name`.
pub fn find_assignment(assignments: &Vec<Assignment>, name: &String) -> (found: Option<usize>)
    ensures
        match found {
            Some(i) => assignment_index(assignment_views(assignments@), name@) == Some(i as int) && i
                < assignments.len(),
            None => assignment_index(assignment_views(assignments@), name@) is None,
        },
{
    let mut i: usize = 0;
    while i < assignments.len()
        invariant
            i <= assignments.len(),
            assignment_index_from(assignment_views(assignments@), name@, i as int) == assignment_index(
                assignment_views(assignments@),
                name@,
            ),
        decreases assignments.len() - i,
    {
        if assignments[i].name == *name {
            return Some(i);
        }
        i += 1;
    }
    None
}

} // verus!
