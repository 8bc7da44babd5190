use vstd::prelude::*;
use vstd::string::StringExecFns;
use crate::ast::{
    find_recipe, lemma_recipe_index, recipe_index, recipe_views, Justfile, JustfileView, Recipe,
    RecipeView,
};
use crate::diagnostic::{failure, failure_at, Diagnostic, DiagnosticView};
use crate::suggestion::{suggest, suggested};
use crate::graph::{
    chain, closes_cycle, earlier, edge, graph_ok, lemma_done_stays, lemma_visit, reaches, rows,
    sound, stack_ok, visit, walk, Outcome, Progress,
};

verus! {

/// A request to run a recipe: its name and the values for its parameters.
#[derive(Clone, Debug, PartialEq, Eq)]
pub struct RecipeInvocation {
    pub name: String,
    pub arguments: Vec<String>,
}

pub struct InvocationView {
    pub name: Seq<char>,
    pub arguments: Seq<Seq<char>>,
}

/// The views of the texts of `texts`, in order.
pub open spec fn text_views(texts: Seq<String>) -> Seq<Seq<char>> {
    texts.map_values(|t: String| t@)
}

impl View for RecipeInvocation {
    type V = InvocationView;

    open spec fn view(&self) -> InvocationView {
        InvocationView { name: self.name@, arguments: text_views(self.arguments@) }
    }
}

/// The views of the requests of `requested`, in order.
pub open spec fn invocation_views(requested: Seq<RecipeInvocation>) -> Seq<InvocationView> {
    requested.map_values(|r: RecipeInvocation| r@)
}

/// One run of a recipe: the index of the recipe in the source, and the
/// values for its parameters.
#[derive(Clone, Debug, PartialEq, Eq)]
pub struct PlanStep {
    pub recipe: usize,
    pub arguments: Vec<String>,
}

pub struct StepView {
    pub recipe: usize,
    pub arguments: Seq<Seq<char>>,
}

impl View for PlanStep {
    type V = StepView;

    open spec fn view(&self) -> StepView {
        StepView { recipe: self.recipe, arguments: text_views(self.arguments@) }
    }
}

/// The views of the steps of `steps`, in order.
pub open spec fn step_views(steps: Seq<PlanStep>) -> Seq<StepView> {
    steps.map_values(|s: PlanStep| s@)
}

/// The recipes to run for one invocation of the tool, in the order in which
/// they run.
#[derive(Clone, Debug, PartialEq, Eq)]
pub struct ExecutionPlan {
    pub steps: Vec<PlanStep>,
}

impl View for ExecutionPlan {
    type V = Seq<StepView>;

    open spec fn view(&self) -> Seq<StepView> {
        step_views(self.steps@)
    }
}

/// The index of the recipe named `name`; 0 if there is none.
pub open spec fn target(recipes: Seq<RecipeView>, name: Seq<char>) -> usize {
    match recipe_index(recipes, name) {
        Some(i) => i as usize,
        None => 0,
    }
}

/// The graph of the recipes: for each recipe, in the order of the source,
/// the indices of the recipes that it names as dependencies, in their order.
pub open spec fn graph_of(recipes: Seq<RecipeView>) -> Seq<Seq<usize>> {
    Seq::new(
        recipes.len(),
        |i: int|
            Seq::new(
                recipes[i].dependencies.len(),
                |k: int| target(recipes, recipes[i].dependencies[k].name),
            ),
    )
}

/// The first dependency that names no recipe, going through the recipes from
/// index `i` in the order of the source, and through the dependencies of
/// recipe `i` from number `k`: the recipe's index and the dependency's number.
pub open spec fn first_unknown(recipes: Seq<RecipeView>, i: int, k: int) -> Option<(int, int)>
    decreases recipes.len() - i, recipes[i].dependencies.len() - k,
{
    if !(0 <= i < recipes.len()) {
        None
    } else if !(0 <= k < recipes[i].dependencies.len()) {
        first_unknown(recipes, i + 1, 0)
    } else if recipe_index(recipes, recipes[i].dependencies[k].name) is None {
        Some((i, k))
    } else {
        first_unknown(recipes, i, k + 1)
    }
}

/// The message for a dependency of `recipe` that names no recipe.
pub open spec fn unknown_dependency_message(recipe: Seq<char>, unknown: Seq<char>) -> Seq<char> {
    "recipe `"@ + recipe + "` has unknown dependency `"@ + unknown + "`"@
}

/// The failure for dependency number `k` of recipe `i`, which names no recipe.
pub open spec fn unknown_dependency(recipes: Seq<RecipeView>, i: int, k: int) -> DiagnosticView {
    failure_at(
        unknown_dependency_message(recipes[i].name, recipes[i].dependencies[k].name),
        recipes[i].dependencies[k].span,
    )
}

/// `names` from index `i` on, joined by ` -> `, after the text `done`.
pub open spec fn arrows(names: Seq<Seq<char>>, i: int, done: Seq<char>) -> Seq<char>
    decreases names.len() - i,
{
    if !(0 <= i < names.len()) {
        done
    } else if i == 0 {
        arrows(names, i + 1, names[i])
    } else {
        arrows(names, i + 1, done + " -> "@ + names[i])
    }
}

/// The first index at or after `from` at which `stack` holds `node`; the
/// length of `stack` if there is none.
pub open spec fn position(stack: Seq<usize>, node: usize, from: int) -> int
    decreases stack.len() - from,
{
    if 0 <= from < stack.len() && stack[from] != node {
        position(stack, node, from + 1)
    } else {
        from
    }
}

/// The names of the recipes on the cycle that the walk found: from the
/// recipe that the last one on `stack` depends on, along `stack` to that last
/// one, and back to the first.
pub open spec fn cycle_names(recipes: Seq<RecipeView>, stack: Seq<usize>, closing: usize) -> Seq<Seq<char>> {
    Seq::new(
        (stack.len() - position(stack, closing, 0) + 1) as nat,
        |j: int|
            if position(stack, closing, 0) + j < stack.len() {
                recipes[stack[position(stack, closing, 0) + j] as int].name
            } else {
                recipes[closing as int].name
            },
    )
}

/// The message for a cycle that ends at `recipe`, with the names on the cycle.
pub open spec fn circular_message(recipe: Seq<char>, names: Seq<Seq<char>>) -> Seq<char> {
    "recipe `"@ + recipe + "` has circular dependency `"@ + arrows(names, 0, Seq::empty()) + "`"@
}

/// The failure for the cycle that dependency number `edge` of the last
/// recipe on `stack` closes.
pub open spec fn circular_dependency(recipes: Seq<RecipeView>, stack: Seq<usize>, edge: int) -> DiagnosticView {
    let last = stack.last() as int;
    let closing = graph_of(recipes)[last][edge];
    failure_at(
        circular_message(recipes[last].name, cycle_names(recipes, stack, closing)),
        recipes[last].dependencies[edge].span,
    )
}

/// The names among `requested` from index `i` on that name no recipe, after
/// the names `done`.
pub open spec fn missing(recipes: Seq<RecipeView>, requested: Seq<InvocationView>, i: int, done: Seq<Seq<char>>) -> Seq<
    Seq<char>,
>
    decreases requested.len() - i,
{
    if !(0 <= i < requested.len()) {
        done
    } else if recipe_index(recipes, requested[i].name) is None {
        missing(recipes, requested, i + 1, done.push(requested[i].name))
    } else {
        missing(recipes, requested, i + 1, done)
    }
}

/// `name` between backticks.
pub open spec fn ticked(name: Seq<char>) -> Seq<char> {
    "`"@ + name + "`"@
}

/// `names` from index `i` on as they are listed in a message, after the
/// text `done`: two names are joined by `word`; of three names or more, each
/// is followed by a comma, and `word` stands before the last.
pub open spec fn listed(names: Seq<Seq<char>>, word: Seq<char>, i: int, done: Seq<char>) -> Seq<char>
    decreases names.len() - i,
{
    if !(0 <= i < names.len()) {
        done
    } else if i == 0 {
        listed(names, word, i + 1, ticked(names[i]))
    } else if names.len() == 2 {
        listed(names, word, i + 1, done + " "@ + word + " "@ + ticked(names[i]))
    } else if i == names.len() - 1 {
        listed(names, word, i + 1, done + ", "@ + word + " "@ + ticked(names[i]))
    } else {
        listed(names, word, i + 1, done + ", "@ + ticked(names[i]))
    }
}

/// The message for requests that name no recipe.
pub open spec fn unknown_recipes_message(names: Seq<Seq<char>>) -> Seq<char> {
    (if names.len() == 1 {
        "Justfile does not contain recipe "@
    } else {
        "Justfile does not contain recipes "@
    }) + listed(names, "or"@, 0, Seq::empty()) + "."@
}

/// What is added to the message where a single request names no recipe and
/// a recipe has a name close to it.
pub open spec fn hint(recipes: Seq<RecipeView>, names: Seq<Seq<char>>) -> Seq<char> {
    if names.len() == 1 {
        match suggested(recipes, names[0]) {
            Some(name) => "\nDid you mean `"@ + name + "`?"@,
            None => Seq::empty(),
        }
    } else {
        Seq::empty()
    }
}

/// The failure for the requests `names`, which name no recipe.
pub open spec fn unknown_recipes_failure(recipes: Seq<RecipeView>, names: Seq<Seq<char>>) -> DiagnosticView {
    failure(unknown_recipes_message(names) + hint(recipes, names))
}

/// The steps for nodes that run because another recipe depends on them: they
/// get no arguments.
pub open spec fn prerequisites(nodes: Seq<usize>) -> Seq<StepView> {
    Seq::new(nodes.len(), |j: int| StepView { recipe: nodes[j], arguments: Seq::empty() })
}

/// How scheduling ends: with the steps, or with the cycle that the walk found.
pub enum Scheduled {
    Steps { steps: Seq<StepView> },
    Cycle { stack: Seq<usize>, edge: int },
}

/// The steps for the requests from index `i` on, after the steps `steps`
/// with the walk's state `p`. A recipe that is finished is not scheduled
/// again. Before a requested recipe stand those that it depends on and that
/// are not scheduled yet, each after its own, in the order of the walk.
pub open spec fn schedule(
    recipes: Seq<RecipeView>,
    requested: Seq<InvocationView>,
    i: int,
    p: Progress,
    steps: Seq<StepView>,
) -> Scheduled
    decreases requested.len() - i,
{
    if !(0 <= i < requested.len()) {
        Scheduled::Steps { steps }
    } else {
        let root = target(recipes, requested[i].name);
        if p.done[root as int] {
            schedule(recipes, requested, i + 1, p, steps)
        } else {
            match visit(graph_of(recipes), root, Seq::empty(), p) {
                Outcome::Finished { progress } => schedule(
                    recipes,
                    requested,
                    i + 1,
                    progress,
                    (steps + prerequisites(progress.order.subrange(p.order.len() as int, progress.order.len() - 1))).push(
                        StepView { recipe: root, arguments: requested[i].arguments },
                    ),
                ),
                Outcome::Cycle { stack, edge } => Scheduled::Cycle { stack, edge },
            }
        }
    }
}

/// The state of a walk before it starts on a graph of `n` nodes.
pub open spec fn fresh(n: nat) -> Progress {
    Progress { done: Seq::new(n, |i: int| false), order: Seq::empty() }
}

/// The plan for running `requested` on the recipes of `file`, or the reason
/// why there is none: a dependency that names no recipe (the first in the
/// source), requests that name no recipe (all of them, and for a single one
/// the recipe that may have been meant), or a cycle among the
/// recipes that the requests lead to (the first that the walk comes upon).
pub open spec fn planned(file: JustfileView, requested: Seq<InvocationView>) -> Result<
    Seq<StepView>,
    DiagnosticView,
> {
    match first_unknown(file.recipes, 0, 0) {
        Some((i, k)) => Err(unknown_dependency(file.recipes, i, k)),
        None => {
            let names = missing(file.recipes, requested, 0, Seq::empty());
            if names.len() > 0 {
                Err(unknown_recipes_failure(file.recipes, names))
            } else {
                match schedule(file.recipes, requested, 0, fresh(file.recipes.len()), Seq::empty()) {
                    Scheduled::Steps { steps } => Ok(steps),
                    Scheduled::Cycle { stack, edge } => Err(circular_dependency(file.recipes, stack, edge)),
                }
            }
        },
    }
}

/// A copy of `texts`.
pub fn copy_texts(texts: &Vec<String>) -> (copy: Vec<String>)
    ensures
        text_views(copy@) == text_views(texts@),
{
    let mut copy: Vec<String> = Vec::new();
    let mut i: usize = 0;
    while i < texts.len()
        invariant
            i <= texts.len(),
            copy.len() == i,
            forall|j: int| 0 <= j < i ==> copy@[j]@ == texts@[j]@,
        decreases texts.len() - i,
    {
        copy.push(texts[i].clone());
        i += 1;
    }
    assert(text_views(copy@) =~= text_views(texts@));
    copy
}

fn tick(name: &String) -> (out: String)
    ensures
        out@ == ticked(name@),
{
    let mut out = String::from_str("`");
    out.append(name.as_str());
    out.append("`");
    out
}

/// The names as a message lists them, the last two joined by `word`.
pub fn list_names(names: &Vec<String>, word: &str) -> (out: String)
    ensures
        out@ == listed(text_views(names@), word@, 0, Seq::empty()),
{
    let mut out = String::new();
    let mut i: usize = 0;
    while i < names.len()
        invariant
            i <= names.len(),
            listed(text_views(names@), word@, i as int, out@) == listed(
                text_views(names@),
                word@,
                0,
                Seq::empty(),
            ),
        decreases names.len() - i,
    {
        assert(text_views(names@)[i as int] == names@[i as int]@);
        let name = tick(&names[i]);
        if i == 0 {
            out = name;
        } else if names.len() == 2 {
            out.append(" ");
            out.append(word);
            out.append(" ");
            out.append(name.as_str());
        } else if i == names.len() - 1 {
            out.append(", ");
            out.append(word);
            out.append(" ");
            out.append(name.as_str());
        } else {
            out.append(", ");
            out.append(name.as_str());
        }
        i += 1;
    }
    out
}

fn join_arrows(names: &Vec<String>) -> (out: String)
    ensures
        out@ == arrows(text_views(names@), 0, Seq::empty()),
{
    let mut out = String::new();
    let mut i: usize = 0;
    while i < names.len()
        invariant
            i <= names.len(),
            arrows(text_views(names@), i as int, out@) == arrows(text_views(names@), 0, Seq::empty()),
        decreases names.len() - i,
    {
        assert(text_views(names@)[i as int] == names@[i as int]@);
        if i == 0 {
            out = names[i].clone();
        } else {
            out.append(" -> ");
            out.append(names[i].as_str());
        }
        i += 1;
    }
    out
}

fn build_graph(recipes: &Vec<Recipe>) -> (r: Result<Vec<Vec<usize>>, Diagnostic>)
    ensures
        match r {
            Ok(graph) => first_unknown(recipe_views(recipes@), 0, 0) is None && rows(graph@) == graph_of(
                recipe_views(recipes@),
            ) && graph_ok(rows(graph@)) && graph.len() == recipes.len(),
            Err(error) => first_unknown(recipe_views(recipes@), 0, 0) matches Some((i, k)) && error@
                == unknown_dependency(recipe_views(recipes@), i, k),
        },
{
    let ghost views = recipe_views(recipes@);
    let mut graph: Vec<Vec<usize>> = Vec::new();
    let mut i: usize = 0;
    while i < recipes.len()
        invariant
            i <= recipes.len(),
            views == recipe_views(recipes@),
            graph.len() == i,
            first_unknown(views, i as int, 0) == first_unknown(views, 0, 0),
            forall|j: int| 0 <= j < i ==> (#[trigger] graph@[j])@ == graph_of(views)[j],
            forall|j: int, k: int|
                0 <= j < i && 0 <= k < graph@[j]@.len() ==> #[trigger] graph@[j]@[k] < recipes.len(),
        decreases recipes.len() - i,
    {
        let recipe = &recipes[i];
        assert(views[i as int] == recipe@);
        let mut row: Vec<usize> = Vec::new();
        let mut k: usize = 0;
        while k < recipe.dependencies.len()
            invariant
                i < recipes.len(),
                views == recipe_views(recipes@),
                views[i as int] == recipe@,
                k <= recipe.dependencies.len(),
                row.len() == k,
                first_unknown(views, i as int, k as int) == first_unknown(views, 0, 0),
                forall|j: int| 0 <= j < k ==> #[trigger] row@[j] == graph_of(views)[i as int][j],
                forall|j: int| 0 <= j < k ==> #[trigger] row@[j] < recipes.len(),
            decreases recipe.dependencies.len() - k,
        {
            let dependency = &recipe.dependencies[k];
            assert(views[i as int].dependencies[k as int] == dependency@);
            match find_recipe(recipes, &dependency.name) {
                Some(found) => {
                    row.push(found);
                },
                None => {
                    let mut message = String::from_str("recipe `");
                    message.append(recipe.name.as_str());
                    message.append("` has unknown dependency `");
                    message.append(dependency.name.as_str());
                    message.append("`");
                    return Err(Diagnostic::at(message, dependency.span));
                },
            }
            k += 1;
        }
        assert(row@ =~= graph_of(views)[i as int]);
        graph.push(row);
        i += 1;
    }
    assert(rows(graph@) =~= graph_of(views));
    assert(graph_ok(rows(graph@))) by {
        assert forall|v: int, k: int|
            0 <= v < rows(graph@).len() && 0 <= k < rows(graph@)[v].len() implies #[trigger] rows(
            graph@,
        )[v][k] < rows(graph@).len() by {
            assert(graph@[v]@[k] < recipes.len());
        }
    }
    Ok(graph)
}

fn find_position(stack: &Vec<usize>, node: usize) -> (at: usize)
    ensures
        at == position(stack@, node, 0),
        at <= stack.len(),
{
    let mut i: usize = 0;
    while i < stack.len() && stack[i] != node
        invariant
            i <= stack.len(),
            position(stack@, node, i as int) == position(stack@, node, 0),
        decreases stack.len() - i,
    {
        i += 1;
    }
    i
}

fn cycle_failure(recipes: &Vec<Recipe>, graph: &Vec<Vec<usize>>, stack: &Vec<usize>, edge: usize) -> (d:
    Diagnostic)
    requires
        rows(graph@) == graph_of(recipe_views(recipes@)),
        graph.len() == recipes.len(),
        closes_cycle(rows(graph@), stack@, edge as int),
    ensures
        d@ == circular_dependency(recipe_views(recipes@), stack@, edge as int),
{
    let ghost views = recipe_views(recipes@);
    let last = stack[stack.len() - 1];
    assert(rows(graph@)[last as int] == graph@[last as int]@);
    assert(views[last as int] == recipes@[last as int]@);
    let closing = graph[last][edge];
    let from = find_position(stack, closing);
    let mut names: Vec<String> = Vec::new();
    let mut j: usize = from;
    while j < stack.len()
        invariant
            from <= j <= stack.len(),
            views == recipe_views(recipes@),
            stack_ok(rows(graph@), stack@),
            graph.len() == recipes.len(),
            names.len() == j - from,
            forall|t: int| 0 <= t < j - from ==> (#[trigger] names@[t])@ == views[stack@[from + t] as int].name,
        decreases stack.len() - j,
    {
        assert(stack@[j as int] < recipes.len());
        assert(views[stack@[j as int] as int] == recipes@[stack@[j as int] as int]@);
        names.push(recipes[stack[j]].name.clone());
        j += 1;
    }
    assert(views[closing as int] == recipes@[closing as int]@);
    names.push(recipes[closing].name.clone());
    assert(text_views(names@) =~= cycle_names(views, stack@, closing));
    let recipe = &recipes[last];
    let mut message = String::from_str("recipe `");
    message.append(recipe.name.as_str());
    message.append("` has circular dependency `");
    message.append(join_arrows(&names).as_str());
    message.append("`");
    assert(views[last as int].dependencies[edge as int] == recipe.dependencies@[edge as int]@);
    Diagnostic::at(message, recipe.dependencies[edge].span)
}

/// The failure for the requests `names`, which name no recipe.
pub(crate) fn unknown_recipes(recipes: &Vec<Recipe>, names: &Vec<String>) -> (d: Diagnostic)
    requires
        names.len() > 0,
    ensures
        d@ == unknown_recipes_failure(recipe_views(recipes@), text_views(names@)),
{
    let mut message = if names.len() == 1 {
        String::from_str("Justfile does not contain recipe ")
    } else {
        String::from_str("Justfile does not contain recipes ")
    };
    message.append(list_names(names, "or").as_str());
    message.append(".");
    let mut hint = String::new();
    if names.len() == 1 {
        assert(text_views(names@)[0] == names@[0]@);
        if let Some(name) = suggest(recipes, &names[0]) {
            hint = String::from_str("\nDid you mean `");
            hint.append(name.as_str());
            hint.append("`?");
        }
    }
    message.append(hint.as_str());
    Diagnostic::plain(message)
}

/// The indices of the requested recipes, or the failure that lists the
/// requests that name no recipe.
fn find_roots(recipes: &Vec<Recipe>, requested: &Vec<RecipeInvocation>) -> (r: Result<Vec<usize>, Diagnostic>)
    ensures
        match r {
            Ok(roots) => {
                &&& missing(recipe_views(recipes@), invocation_views(requested@), 0, Seq::empty()).len() == 0
                &&& roots.len() == requested.len()
                &&& forall|i: int|
                    0 <= i < roots.len() ==> #[trigger] roots@[i] == target(
                        recipe_views(recipes@),
                        requested@[i].name@,
                    ) && roots@[i] < recipes.len()
            },
            Err(error) => {
                let names = missing(recipe_views(recipes@), invocation_views(requested@), 0, Seq::empty());
                names.len() > 0 && error@ == unknown_recipes_failure(recipe_views(recipes@), names)
            },
        },
{
    let ghost views = recipe_views(recipes@);
    let ghost asked = invocation_views(requested@);
    let mut roots: Vec<usize> = Vec::new();
    let mut names: Vec<String> = Vec::new();
    let mut i: usize = 0;
    assert(text_views(names@) =~= Seq::empty());
    while i < requested.len()
        invariant
            i <= requested.len(),
            views == recipe_views(recipes@),
            asked == invocation_views(requested@),
            missing(views, asked, i as int, text_views(names@)) == missing(views, asked, 0, Seq::empty()),
            roots.len() == i,
            forall|j: int|
                0 <= j < i ==> #[trigger] roots@[j] == target(views, requested@[j].name@) && (names.len() == 0
                    ==> roots@[j] < recipes.len()),
        decreases requested.len() - i,
    {
        assert(asked[i as int] == requested@[i as int]@);
        match find_recipe(recipes, &requested[i].name) {
            Some(found) => {
                roots.push(found);
            },
            None => {
                let ghost before = text_views(names@);
                names.push(requested[i].name.clone());
                assert(text_views(names@) =~= before.push(requested@[i as int].name@));
                roots.push(0);
            },
        }
        i += 1;
    }
    if names.len() > 0 {
        Err(unknown_recipes(recipes, &names))
    } else {
        Ok(roots)
    }
}

/// Plans the run of `requested`.
///
/// Every dependency has to name a recipe, and so has every request. The
/// requested recipes are then taken in the order of the requests: each is
/// scheduled after the recipes that it depends on, directly or through
/// others, in the order in which it names them, and no recipe is scheduled
/// twice. A recipe that leads back to itself ends the planning with the
/// cycle.
pub fn plan(justfile: &Justfile, requested: &Vec<RecipeInvocation>) -> (r: Result<ExecutionPlan, Diagnostic>)
    ensures
        match r {
            Ok(plan) => planned(justfile@, invocation_views(requested@)) == Ok::<
                Seq<StepView>,
                DiagnosticView,
            >(plan@),
            Err(error) => planned(justfile@, invocation_views(requested@)) == Err::<
                Seq<StepView>,
                DiagnosticView,
            >(error@),
        },
{
    let recipes = &justfile.recipes;
    let ghost views = recipe_views(recipes@);
    let ghost asked = invocation_views(requested@);
    let graph = match build_graph(recipes) {
        Ok(graph) => graph,
        Err(error) => {
            return Err(error);
        },
    };
    let roots = match find_roots(recipes, requested) {
        Ok(roots) => roots,
        Err(error) => {
            return Err(error);
        },
    };
    let mut done: Vec<bool> = Vec::new();
    while done.len() < recipes.len()
        invariant
            done.len() <= recipes.len(),
            forall|j: int| 0 <= j < done.len() ==> !done@[j],
        decreases recipes.len() - done.len(),
    {
        done.push(false);
    }
    assert(done@ =~= fresh(views.len()).done);
    let mut order: Vec<usize> = Vec::new();
    let mut stack: Vec<usize> = Vec::new();
    let mut steps: Vec<PlanStep> = Vec::new();
    assert(step_views(steps@) =~= Seq::empty());
    assert(sound(rows(graph@), Progress { done: done@, order: order@ }));
    let mut i: usize = 0;
    while i < requested.len()
        invariant
            i <= requested.len(),
            views == recipe_views(recipes@),
            justfile@.recipes == views,
            first_unknown(views, 0, 0) is None,
            missing(views, asked, 0, Seq::empty()).len() == 0,
            asked == invocation_views(requested@),
            rows(graph@) == graph_of(views),
            graph_ok(rows(graph@)),
            graph.len() == recipes.len(),
            done.len() == recipes.len(),
            stack@ == Seq::<usize>::empty(),
            roots.len() == requested.len(),
            forall|j: int|
                0 <= j < roots.len() ==> #[trigger] roots@[j] == target(views, requested@[j].name@) && roots@[j]
                    < recipes.len(),
            sound(rows(graph@), Progress { done: done@, order: order@ }),
            schedule(views, asked, i as int, Progress { done: done@, order: order@ }, step_views(steps@))
                == schedule(views, asked, 0, fresh(views.len()), Seq::empty()),
        decreases requested.len() - i,
    {
        let root = roots[i];
        assert(asked[i as int] == requested@[i as int]@);
        if !done[root] {
            let ghost p = Progress { done: done@, order: order@ };
            let ghost old_steps = step_views(steps@);
            let before = order.len();
            proof {
                assert(chain(rows(graph@), stack@.push(root)));
                lemma_visit(rows(graph@), root, stack@, p);
            }
            match walk(&graph, root, &mut stack, &mut done, &mut order) {
                Some(edge) => {
                    assert(schedule(views, asked, i as int, p, old_steps) == (Scheduled::Cycle {
                        stack: stack@,
                        edge: edge as int,
                    }));
                    return Err(cycle_failure(recipes, &graph, &stack, edge));
                },
                None => {},
            }
            let mut t: usize = before;
            while t < order.len() - 1
                invariant
                    before <= t <= order.len() - 1,
                    step_views(steps@) == old_steps + prerequisites(order@.subrange(before as int, t as int)),
                decreases order.len() - t,
            {
                let ghost so_far = step_views(steps@);
                let none: Vec<String> = Vec::new();
                assert(text_views(none@) =~= Seq::empty());
                let step = PlanStep { recipe: order[t], arguments: none };
                steps.push(step);
                t += 1;
                assert(step_views(steps@) =~= so_far.push(step@));
                assert(step_views(steps@) =~= old_steps + prerequisites(
                    order@.subrange(before as int, t as int),
                ));
            }
            let ghost so_far = step_views(steps@);
            let step = PlanStep { recipe: root, arguments: copy_texts(&requested[i].arguments) };
            steps.push(step);
            assert(step_views(steps@) =~= so_far.push(step@));
        }
        i += 1;
    }
    Ok(ExecutionPlan { steps })
}

/// The recipes of the steps `steps`, in order.
pub open spec fn step_recipes(steps: Seq<StepView>) -> Seq<usize> {
    Seq::new(steps.len(), |j: int| steps[j].recipe)
}

/// Whether every request names a recipe.
pub open spec fn all_known(recipes: Seq<RecipeView>, requested: Seq<InvocationView>) -> bool {
    forall|j: int| 0 <= j < requested.len() ==> recipe_index(recipes, (#[trigger] requested[j]).name) is Some
}

/// Whether every dependency names a recipe.
pub open spec fn dependencies_known(recipes: Seq<RecipeView>) -> bool {
    forall|i: int, k: int|
        0 <= i < recipes.len() && 0 <= k < recipes[i].dependencies.len() ==> recipe_index(
            recipes,
            (#[trigger] recipes[i].dependencies[k]).name,
        ) is Some
}

/// Whether dependencies lead from one of the first `upto` requests to the
/// recipe `v`.
pub open spec fn requested_reaches(
    recipes: Seq<RecipeView>,
    requested: Seq<InvocationView>,
    upto: int,
    v: usize,
) -> bool {
    exists|j: int|
        0 <= j < upto && j < requested.len() && reaches(
            graph_of(recipes),
            target(recipes, (#[trigger] requested[j]).name),
            v,
        )
}

/// Whether dependencies lead from the recipe `v` back to it.
pub open spec fn cyclic(graph: Seq<Seq<usize>>, v: usize) -> bool {
    exists|path: Seq<usize>| #[trigger]
        chain(graph, path) && path.len() >= 2 && path[0] == v && path.last() == v
}

/// The nodes of the cycle that the walk found, from the node that closes it
/// round to that node again.
pub open spec fn cycle_nodes(stack: Seq<usize>, closing: usize) -> Seq<usize> {
    stack.subrange(position(stack, closing, 0), stack.len() as int).push(closing)
}

/// Whether dependency `d` of recipe `c` stands before dependency `b` of
/// recipe `a` in the source.
pub open spec fn stands_before(c: int, d: int, a: int, b: int) -> bool {
    c < a || (c == a && d < b)
}

/// What the search for an unknown dependency finds is the first one from
/// where it starts; if it finds none, every dependency from there on names a
/// recipe.
pub proof fn lemma_first_unknown(recipes: Seq<RecipeView>, i: int, k: int)
    requires
        0 <= i,
        0 <= k,
    ensures
        match first_unknown(recipes, i, k) {
            Some((a, b)) => {
                &&& a < recipes.len()
                &&& 0 <= b < recipes[a].dependencies.len()
                &&& !stands_before(a, b, i, k)
                &&& recipe_index(recipes, recipes[a].dependencies[b].name) is None
                &&& forall|c: int, d: int|
                    !stands_before(c, d, i, k) && stands_before(c, d, a, b) && 0 <= d
                        < recipes[c].dependencies.len() ==> recipe_index(
                        recipes,
                        (#[trigger] recipes[c].dependencies[d]).name,
                    ) is Some
            },
            None => forall|c: int, d: int|
                !stands_before(c, d, i, k) && c < recipes.len() && 0 <= d < recipes[c].dependencies.len()
                    ==> recipe_index(recipes, (#[trigger] recipes[c].dependencies[d]).name) is Some,
        },
    decreases recipes.len() - i, recipes[i].dependencies.len() - k,
{
    if i < recipes.len() {
        if k >= recipes[i].dependencies.len() {
            lemma_first_unknown(recipes, i + 1, 0);
        } else if recipe_index(recipes, recipes[i].dependencies[k].name) is Some {
            lemma_first_unknown(recipes, i, k + 1);
        }
    }
}

/// Where every dependency names a recipe, the graph of the recipes holds
/// only its own nodes.
pub proof fn lemma_graph_ok(recipes: Seq<RecipeView>)
    requires
        dependencies_known(recipes),
        recipes.len() <= usize::MAX,
    ensures
        graph_ok(graph_of(recipes)),
{
    let graph = graph_of(recipes);
    assert forall|v: int, k: int| 0 <= v < graph.len() && 0 <= k < graph[v].len() implies #[trigger] graph[v][k]
        < graph.len() by {
        assert(recipe_index(recipes, recipes[v].dependencies[k].name) is Some);
        lemma_recipe_index(recipes, recipes[v].dependencies[k].name, 0);
    }
}

/// The names that `missing` adds are those of the requests that name no
/// recipe.
pub proof fn lemma_missing(recipes: Seq<RecipeView>, requested: Seq<InvocationView>, i: int, done: Seq<Seq<char>>)
    requires
        0 <= i,
    ensures
        missing(recipes, requested, i, done).len() >= done.len(),
        missing(recipes, requested, i, done).len() == done.len() <==> forall|j: int|
            i <= j < requested.len() ==> recipe_index(recipes, (#[trigger] requested[j]).name) is Some,
    decreases requested.len() - i,
{
    if i < requested.len() {
        if recipe_index(recipes, requested[i].name) is None {
            lemma_missing(recipes, requested, i + 1, done.push(requested[i].name));
        } else {
            lemma_missing(recipes, requested, i + 1, done);
        }
    }
}

/// Along a path of dependencies that starts at a scheduled recipe, every
/// recipe is scheduled, and each before the one that depends on it.
pub proof fn lemma_path_descends(graph: Seq<Seq<usize>>, p: Progress, path: Seq<usize>, t: int)
    requires
        sound(graph, p),
        chain(graph, path),
        path.len() >= 1,
        0 <= t < p.order.len(),
        p.order[t] == path[0],
    ensures
        exists|u: int|
            0 <= u <= t && #[trigger] p.order[u] == path.last() && (path.len() >= 2 ==> u < t),
    decreases path.len(),
{
    if path.len() == 1 {
        assert(p.order[t] == path.last());
    } else {
        assert(edge(graph, path[0], path[1]));
        let k = choose|k: int| 0 <= k < graph[path[0] as int].len() && graph[path[0] as int][k] == path[1];
        assert(earlier(p.order, t, graph[p.order[t] as int][k]));
        let j = choose|j: int| 0 <= j < t && p.order[j] == path[1];
        let rest = path.subrange(1, path.len() as int);
        assert forall|i: int| 0 <= i < rest.len() - 1 implies edge(graph, #[trigger] rest[i], rest[i + 1]) by {
            assert(rest[i] == path[i + 1]);
            assert(edge(graph, path[i + 1], path[i + 2]));
        }
        lemma_path_descends(graph, p, rest, j);
        let u = choose|u: int| 0 <= u <= j && #[trigger] p.order[u] == rest.last() && (rest.len() >= 2 ==> u < j);
        assert(p.order[u] == path.last());
    }
}

/// What scheduling gives from request `i` on: steps whose recipes are the
/// order of a sound walk that has finished every request and only recipes
/// that the requests lead to; or a cycle on a path from a request.
pub open spec fn scheduled_well(
    recipes: Seq<RecipeView>,
    requested: Seq<InvocationView>,
    result: Scheduled,
) -> bool {
    match result {
        Scheduled::Steps { steps } => exists|q: Progress|
            {
                &&& #[trigger] sound(graph_of(recipes), q)
                &&& q.order == step_recipes(steps)
                &&& forall|j: int|
                    0 <= j < requested.len() ==> q.done[target(recipes, (#[trigger] requested[j]).name) as int]
                &&& forall|t: int|
                    0 <= t < q.order.len() ==> requested_reaches(
                        recipes,
                        requested,
                        requested.len() as int,
                        #[trigger] q.order[t],
                    )
            },
        Scheduled::Cycle { stack, edge } => {
            &&& closes_cycle(graph_of(recipes), stack, edge)
            &&& exists|j: int| 0 <= j < requested.len() && stack[0] == target(recipes, (#[trigger] requested[j]).name)
        },
    }
}

/// Scheduling from a sound state gives what `scheduled_well` says.
pub proof fn lemma_schedule(
    recipes: Seq<RecipeView>,
    requested: Seq<InvocationView>,
    i: int,
    p: Progress,
    steps: Seq<StepView>,
)
    requires
        graph_ok(graph_of(recipes)),
        recipes.len() <= usize::MAX,
        all_known(recipes, requested),
        sound(graph_of(recipes), p),
        step_recipes(steps) == p.order,
        0 <= i <= requested.len(),
        forall|j: int| 0 <= j < i ==> p.done[target(recipes, (#[trigger] requested[j]).name) as int],
        forall|t: int| 0 <= t < p.order.len() ==> requested_reaches(recipes, requested, i, #[trigger] p.order[t]),
    ensures
        scheduled_well(recipes, requested, schedule(recipes, requested, i, p, steps)),
    decreases requested.len() - i,
{
    let graph = graph_of(recipes);
    if i >= requested.len() {
        assert(sound(graph, p));
    } else {
        let root = target(recipes, requested[i].name);
        lemma_recipe_index(recipes, requested[i].name, 0);
        assert(root < recipes.len());
        if p.done[root as int] {
            lemma_schedule(recipes, requested, i + 1, p, steps);
        } else {
            let none = Seq::<usize>::empty();
            assert(chain(graph, none.push(root)));
            lemma_visit(graph, root, none, p);
            match visit(graph, root, none, p) {
                Outcome::Finished { progress: q } => {
                    let more = (steps + prerequisites(
                        q.order.subrange(p.order.len() as int, q.order.len() - 1),
                    )).push(StepView { recipe: root, arguments: requested[i].arguments });
                    assert(step_recipes(more) =~= q.order) by {
                        assert forall|t: int| 0 <= t < q.order.len() implies step_recipes(more)[t]
                            == q.order[t] by {
                            if t < p.order.len() {
                                assert(step_recipes(steps)[t] == p.order[t]);
                                assert(q.order[t] == p.order[t]);
                            }
                        }
                    }
                    assert forall|j: int| 0 <= j < i + 1 implies q.done[target(
                        recipes,
                        (#[trigger] requested[j]).name,
                    ) as int] by {
                        let r = target(recipes, requested[j].name);
                        lemma_recipe_index(recipes, requested[j].name, 0);
                        if j < i {
                            lemma_done_stays(graph, p, q, r);
                        } else {
                            assert(q.order[q.order.len() - 1] == root);
                        }
                    }
                    assert forall|t: int| 0 <= t < q.order.len() implies requested_reaches(
                        recipes,
                        requested,
                        i + 1,
                        #[trigger] q.order[t],
                    ) by {
                        if t < p.order.len() {
                            assert(q.order[t] == p.order[t]);
                            assert(requested_reaches(recipes, requested, i, p.order[t]));
                            let j = choose|j: int|
                                0 <= j < i && j < requested.len() && reaches(
                                    graph_of(recipes),
                                    target(recipes, (#[trigger] requested[j]).name),
                                    p.order[t],
                                );
                            assert(reaches(graph, target(recipes, requested[j].name), q.order[t]));
                        } else {
                            assert(reaches(graph, target(recipes, requested[i].name), q.order[t]));
                        }
                    }
                    lemma_schedule(recipes, requested, i + 1, q, more);
                },
                Outcome::Cycle { stack, edge } => {
                    assert(stack[0] == none.push(root)[0]);
                    assert(stack[0] == target(recipes, requested[i].name));
                },
            }
        }
    }
}

/// Whether the plan can be made as far as the names go: every dependency and
/// every request names a recipe.
pub open spec fn names_resolve(file: JustfileView, requested: Seq<InvocationView>) -> bool {
    &&& file.recipes.len() <= usize::MAX
    &&& first_unknown(file.recipes, 0, 0) is None
    &&& missing(file.recipes, requested, 0, Seq::empty()).len() == 0
}

/// What scheduling gives for all the requests is as `scheduled_well` says.
pub proof fn lemma_scheduled_well(file: JustfileView, requested: Seq<InvocationView>)
    requires
        names_resolve(file, requested),
    ensures
        graph_ok(graph_of(file.recipes)),
        all_known(file.recipes, requested),
        scheduled_well(
            file.recipes,
            requested,
            schedule(file.recipes, requested, 0, fresh(file.recipes.len()), Seq::empty()),
        ),
{
    let recipes = file.recipes;
    lemma_first_unknown(recipes, 0, 0);
    assert(dependencies_known(recipes));
    lemma_graph_ok(recipes);
    lemma_missing(recipes, requested, 0, Seq::empty());
    let p = fresh(recipes.len());
    assert(step_recipes(Seq::<StepView>::empty()) =~= p.order);
    lemma_schedule(recipes, requested, 0, p, Seq::empty());
}

/// A plan holds every recipe that the requests lead to, and no other; it
/// holds none twice; and every recipe stands in it after the recipes that it
/// depends on.
pub proof fn lemma_plan_runs_reachable_once(file: JustfileView, requested: Seq<InvocationView>, steps: Seq<StepView>)
    requires
        file.recipes.len() <= usize::MAX,
        planned(file, requested) == Ok::<Seq<StepView>, DiagnosticView>(steps),
    ensures
        step_recipes(steps).no_duplicates(),
        forall|v: usize|
            v < file.recipes.len() ==> (step_recipes(steps).contains(v) <==> requested_reaches(
                file.recipes,
                requested,
                requested.len() as int,
                v,
            )),
        forall|t: int| 0 <= t < steps.len() ==> (#[trigger] steps[t]).recipe < file.recipes.len(),
        forall|t: int, k: int|
            0 <= t < steps.len() && 0 <= k < graph_of(file.recipes)[steps[t].recipe as int].len() ==> earlier(
                step_recipes(steps),
                t,
                #[trigger] graph_of(file.recipes)[steps[t].recipe as int][k],
            ),
{
    let recipes = file.recipes;
    let graph = graph_of(recipes);
    let order = step_recipes(steps);
    lemma_scheduled_well(file, requested);
    let q = choose|q: Progress|
        {
            &&& #[trigger] sound(graph_of(recipes), q)
            &&& q.order == step_recipes(steps)
            &&& forall|j: int|
                0 <= j < requested.len() ==> q.done[target(recipes, (#[trigger] requested[j]).name) as int]
            &&& forall|t: int|
                0 <= t < q.order.len() ==> requested_reaches(
                    recipes,
                    requested,
                    requested.len() as int,
                    #[trigger] q.order[t],
                )
        };
    assert forall|v: usize| v < recipes.len() implies (order.contains(v) <==> requested_reaches(
        recipes,
        requested,
        requested.len() as int,
        v,
    )) by {
        if requested_reaches(recipes, requested, requested.len() as int, v) {
            let j = choose|j: int|
                0 <= j < requested.len() && reaches(graph, target(recipes, (#[trigger] requested[j]).name), v);
            let root = target(recipes, requested[j].name);
            lemma_recipe_index(recipes, requested[j].name, 0);
            assert(q.done[root as int]);
            assert(q.order.contains(root));
            let t = choose|t: int| 0 <= t < q.order.len() && q.order[t] == root;
            let path = choose|path: Seq<usize>| #[trigger]
                chain(graph, path) && path.len() > 0 && path[0] == root && path.last() == v;
            lemma_path_descends(graph, q, path, t);
        }
        if order.contains(v) {
            let t = choose|t: int| 0 <= t < order.len() && order[t] == v;
            assert(requested_reaches(recipes, requested, requested.len() as int, q.order[t]));
        }
    }
    assert forall|t: int| 0 <= t < steps.len() implies (#[trigger] steps[t]).recipe < recipes.len() by {
        assert(q.order[t] == steps[t].recipe);
    }
    assert forall|t: int, k: int|
        0 <= t < steps.len() && 0 <= k < graph[steps[t].recipe as int].len() implies earlier(
        order,
        t,
        #[trigger] graph[steps[t].recipe as int][k],
    ) by {
        assert(q.order[t] == steps[t].recipe);
        assert(earlier(q.order, t, graph[q.order[t] as int][k]));
    }
}

/// Planning ends with a cycle exactly where dependencies lead from a request
/// to a recipe that they lead back to. The cycle that is reported is one: its
/// nodes start and end at the same recipe, each depends on the next, and its
/// first node is reached from a request.
pub proof fn lemma_cycle_detection(file: JustfileView, requested: Seq<InvocationView>)
    requires
        names_resolve(file, requested),
    ensures
        schedule(file.recipes, requested, 0, fresh(file.recipes.len()), Seq::empty()) is Cycle <==> exists|
            v: usize,
        |
            v < file.recipes.len() && #[trigger] requested_reaches(
                file.recipes,
                requested,
                requested.len() as int,
                v,
            ) && cyclic(graph_of(file.recipes), v),
        schedule(file.recipes, requested, 0, fresh(file.recipes.len()), Seq::empty()) matches Scheduled::Cycle {
            stack,
            edge,
        } ==> {
            let closing = graph_of(file.recipes)[stack.last() as int][edge];
            let nodes = cycle_nodes(stack, closing);
            &&& planned(file, requested) == Err::<Seq<StepView>, DiagnosticView>(
                circular_dependency(file.recipes, stack, edge),
            )
            &&& chain(graph_of(file.recipes), nodes)
            &&& nodes.len() >= 2
            &&& nodes[0] == closing
            &&& nodes.last() == closing
            &&& requested_reaches(file.recipes, requested, requested.len() as int, closing)
        },
{
    let recipes = file.recipes;
    let graph = graph_of(recipes);
    lemma_scheduled_well(file, requested);
    match schedule(recipes, requested, 0, fresh(recipes.len()), Seq::empty()) {
        Scheduled::Steps { steps } => {
            assert(planned(file, requested) == Ok::<Seq<StepView>, DiagnosticView>(steps));
            let q = choose|q: Progress|
                {
                    &&& #[trigger] sound(graph_of(recipes), q)
                    &&& q.order == step_recipes(steps)
                    &&& forall|j: int|
                        0 <= j < requested.len() ==> q.done[target(recipes, (#[trigger] requested[j]).name) as int]
                    &&& forall|t: int|
                        0 <= t < q.order.len() ==> requested_reaches(
                            recipes,
                            requested,
                            requested.len() as int,
                            #[trigger] q.order[t],
                        )
                };
            lemma_plan_runs_reachable_once(file, requested, steps);
            assert forall|v: usize|
                v < recipes.len() && #[trigger] requested_reaches(
                    recipes,
                    requested,
                    requested.len() as int,
                    v,
                ) implies !cyclic(graph, v) by {
                if cyclic(graph, v) {
                    assert(q.order.contains(v));
                    let t = choose|t: int| 0 <= t < q.order.len() && q.order[t] == v;
                    let path = choose|path: Seq<usize>| #[trigger]
                        chain(graph, path) && path.len() >= 2 && path[0] == v && path.last() == v;
                    lemma_path_descends(graph, q, path, t);
                }
            }
        },
        Scheduled::Cycle { stack, edge: closed } => {
            let closing = graph[stack.last() as int][closed];
            let at = position(stack, closing, 0);
            lemma_position(stack, closing, 0);
            let nodes = cycle_nodes(stack, closing);
            assert(nodes[0] == stack[at]);
            assert(crate::graph::edge(graph, stack.last(), closing));
            assert forall|i: int| 0 <= i < nodes.len() - 1 implies crate::graph::edge(graph, #[trigger] nodes[i], nodes[i + 1]) by {
                assert(nodes[i] == stack[at + i]);
                if i + 1 < nodes.len() - 1 {
                    assert(nodes[i + 1] == stack[at + i + 1]);
                }
            }
            let j = choose|j: int| 0 <= j < requested.len() && stack[0] == target(recipes, (#[trigger] requested[j]).name);
            let lead = stack.subrange(0, at + 1);
            assert forall|i: int| 0 <= i < lead.len() - 1 implies crate::graph::edge(graph, #[trigger] lead[i], lead[i + 1]) by {
                assert(lead[i] == stack[i]);
                assert(lead[i + 1] == stack[i + 1]);
            }
            assert(chain(graph, lead) && lead.len() > 0 && lead[0] == stack[0] && lead.last() == closing);
            assert(reaches(graph, target(recipes, requested[j].name), closing));
            assert(requested_reaches(recipes, requested, requested.len() as int, closing));
            assert(chain(graph, nodes) && nodes.len() >= 2 && nodes[0] == closing && nodes.last() == closing);
            assert(cyclic(graph, closing));
        },
    }
}

/// The position that is found for a node that the stack holds is the first
/// index that holds it.
pub proof fn lemma_position(stack: Seq<usize>, node: usize, from: int)
    requires
        0 <= from <= stack.len(),
        exists|i: int| from <= i < stack.len() && stack[i] == node,
    ensures
        from <= position(stack, node, from) < stack.len(),
        stack[position(stack, node, from)] == node,
    decreases stack.len() - from,
{
    if stack[from] != node {
        lemma_position(stack, node, from + 1);
    }
}

} // verus!
