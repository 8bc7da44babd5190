use vstd::prelude::*;
use vstd::string::StringExecFns;
use crate::ast::{
    assignment_views, parameter_views, Assignment, AssignmentView, Justfile, JustfileView, LineView,
    Parameter, ParameterView, Recipe, RecipeView,
};
use crate::diagnostic::{failure, Diagnostic, DiagnosticView, Span};
use crate::evaluator::{
    binding_views, bound, carried_of, evaluate, evaluate_line, expression_value, fragments_value,
    lemma_expression_failure_status, lemma_fragments_failure_status, lemma_override_is_final,
    lemma_variable_failure_status, lookup, scope_of, settled, value_of, variable_value, without_newline,
    Binding, BindingView, ContextView, Evaluated, Evaluation, EvaluationContext,
};
use crate::lexer::{blank_end, scan_blank};
use crate::resolver::{text_views, ExecutionPlan, StepView};
use crate::text::{
    chars_of, decimal, push_decimal, push_signed_decimal, signed_decimal, string_of_range,
};

verus! {

/// How a run is to go.
#[derive(Clone, Copy, Debug, PartialEq, Eq, Structural)]
pub struct Config {
    /// Commands are shown and not run.
    pub dry_run: bool,
    /// Nothing is shown: no command, no output of a command, no failure.
    pub quiet: bool,
}

/// What the caller is asked to do. `exports` are the variables to set in the
/// environment of the command; where `silent` holds, what the command writes
/// is thrown away.
#[derive(Debug, PartialEq, Eq)]
pub enum Action {
    /// Run `command` by the shell and hand back what it wrote to standard
    /// output, with its exit status.
    Backtick { command: String, exports: Vec<Binding>, silent: bool },
    /// Write `command` and a newline to standard error if `announce` holds,
    /// then run it by the shell and hand back its exit status.
    Command { command: String, exports: Vec<Binding>, announce: bool, silent: bool },
    /// Write `text` to standard error if `announce` holds, then run it as a
    /// script of its own and hand back its exit status.
    Script { text: String, exports: Vec<Binding>, announce: bool, silent: bool },
    /// Write `text` to standard error, run nothing, and hand back status 0.
    Announce { text: String },
    /// End the run with the exit status `code`, after showing `error` if
    /// there is one.
    Finish { code: i32, error: Option<Diagnostic> },
}

pub enum ActionView {
    Backtick { command: Seq<char>, exports: Seq<BindingView>, silent: bool },
    Command { command: Seq<char>, exports: Seq<BindingView>, announce: bool, silent: bool },
    Script { text: Seq<char>, exports: Seq<BindingView>, announce: bool, silent: bool },
    Announce { text: Seq<char> },
    Finish { code: i32, error: Option<DiagnosticView> },
}

/// The view of a failure that may be missing.
pub open spec fn optional_failure(d: Option<Diagnostic>) -> Option<DiagnosticView> {
    match d {
        Some(d) => Some(d@),
        None => None,
    }
}

impl View for Action {
    type V = ActionView;

    open spec fn view(&self) -> ActionView {
        match *self {
            Action::Backtick { command, exports, silent } => ActionView::Backtick {
                command: command@,
                exports: binding_views(exports@),
                silent,
            },
            Action::Command { command, exports, announce, silent } => ActionView::Command {
                command: command@,
                exports: binding_views(exports@),
                announce,
                silent,
            },
            Action::Script { text, exports, announce, silent } => ActionView::Script {
                text: text@,
                exports: binding_views(exports@),
                announce,
                silent,
            },
            Action::Announce { text } => ActionView::Announce { text: text@ },
            Action::Finish { code, error } => ActionView::Finish { code, error: optional_failure(error) },
        }
    }
}

/// What the caller hands back.
#[derive(Debug, PartialEq, Eq)]
pub enum Event {
    /// The run begins.
    Start,
    /// The command of a backtick has ended with the status `code`, and wrote
    /// `output` to its standard output.
    Captured { code: i32, output: String },
    /// A command or a script has ended with the status `code`, or a text was
    /// written (`code` 0).
    Exited { code: i32 },
}

pub enum EventView {
    Start,
    Captured { code: i32, output: Seq<char> },
    Exited { code: i32 },
}

impl View for Event {
    type V = EventView;

    open spec fn view(&self) -> EventView {
        match *self {
            Event::Start => EventView::Start,
            Event::Captured { code, output } => EventView::Captured { code, output: output@ },
            Event::Exited { code } => EventView::Exited { code },
        }
    }
}

/// The part of the run that is under way.
#[derive(Clone, Copy, Debug, PartialEq, Eq, Structural)]
pub enum Phase {
    /// The variables are evaluated, in the order of the source.
    Assignments,
    /// The parameters of a recipe get their values.
    Binding,
    /// The lines of a recipe are run.
    Lines,
    /// The run is over.
    Finished,
}

/// What the run waits for.
#[derive(Clone, Copy, Debug, PartialEq, Eq, Structural)]
pub enum Waiting {
    Nothing,
    /// The output of the backtick at `span`.
    Output { span: Span },
    /// The exit status of a command.
    Status,
}

/// The state of a run, as a mathematical value.
pub struct RunnerView {
    pub file: JustfileView,
    pub plan: Seq<StepView>,
    pub config: Config,
    pub context: ContextView,
    pub phase: Phase,
    /// The assignment that is evaluated, or the step of the plan that runs.
    pub index: nat,
    /// The parameter that gets its value, or the line that runs.
    pub item: nat,
    /// The parameters of the recipe that have their values.
    pub parameters: Seq<BindingView>,
    /// The lines of the script that are evaluated.
    pub script: Seq<Seq<char>>,
    pub waiting: Waiting,
    /// The exit status, once the run is over.
    pub code: i32,
}

/// The state before the run begins.
pub open spec fn initial(
    file: JustfileView,
    plan: Seq<StepView>,
    overrides: Seq<BindingView>,
    config: Config,
) -> RunnerView {
    RunnerView {
        file,
        plan,
        config,
        context: ContextView { overrides, values: Seq::empty(), captured: Seq::empty() },
        phase: Phase::Assignments,
        index: 0,
        item: 0,
        parameters: Seq::empty(),
        script: Seq::empty(),
        waiting: Waiting::Nothing,
        code: 0,
    }
}

/// The variables that commands find in their environment: the exported
/// assignments from index `i` on whose values are known, after `done`. A
/// value given on the command line comes before the computed one.
pub open spec fn exports_from(
    assignments: Seq<AssignmentView>,
    context: ContextView,
    i: int,
    done: Seq<BindingView>,
) -> Seq<BindingView>
    decreases assignments.len() - i,
{
    if !(0 <= i < assignments.len()) {
        done
    } else if !assignments[i].exported {
        exports_from(assignments, context, i + 1, done)
    } else {
        match bound(context.overrides, assignments[i].name) {
            Some(value) => exports_from(
                assignments,
                context,
                i + 1,
                done.push(BindingView { name: assignments[i].name, value }),
            ),
            None => match bound(context.values, assignments[i].name) {
                Some(value) => exports_from(
                    assignments,
                    context,
                    i + 1,
                    done.push(BindingView { name: assignments[i].name, value }),
                ),
                None => exports_from(assignments, context, i + 1, done),
            },
        }
    }
}

/// The variables that the commands of the run find in their environment.
pub open spec fn exports(m: RunnerView) -> Seq<BindingView> {
    exports_from(m.file.assignments, m.context, 0, Seq::empty())
}

/// The number of arguments that `parameters`, from index `j` on, ask for at
/// least: as many as reach the last parameter without a default.
pub open spec fn required_from(parameters: Seq<ParameterView>, j: int, least: nat) -> nat
    decreases parameters.len() - j,
{
    if !(0 <= j < parameters.len()) {
        least
    } else if parameters[j].default is None {
        required_from(parameters, j + 1, (j + 1) as nat)
    } else {
        required_from(parameters, j + 1, least)
    }
}

/// The number of arguments that `parameters` ask for at least.
pub open spec fn required(parameters: Seq<ParameterView>) -> nat {
    required_from(parameters, 0, 0)
}

/// `argument` or `arguments`, as `n` asks for.
pub open spec fn arguments_word(n: nat) -> Seq<char> {
    if n == 1 {
        " argument"@
    } else {
        " arguments"@
    }
}

/// The message for a recipe that got `found` arguments and takes from
/// `least` to `most`.
pub open spec fn arity_message(recipe: Seq<char>, found: nat, least: nat, most: nat) -> Seq<char> {
    let head = "Recipe `"@ + recipe + "` got "@ + decimal(found) + arguments_word(found);
    if least == most {
        if found > most {
            head + " but only takes "@ + decimal(most)
        } else {
            head + " but takes "@ + decimal(most)
        }
    } else if found < least {
        head + " but takes at least "@ + decimal(least)
    } else {
        head + " but takes at most "@ + decimal(most)
    }
}

/// The message for a recipe a command of which ended with the status `code`.
pub open spec fn recipe_failed_message(recipe: Seq<char>, code: i32) -> Seq<char> {
    "Recipe `"@ + recipe + "` failed with exit code "@ + signed_decimal(code as int)
}

/// The message for a backtick that ended with the status `code`.
pub open spec fn backtick_failed_message(code: i32) -> Seq<char> {
    "backtick failed with exit code "@ + signed_decimal(code as int)
}

/// The message for an event that the run did not wait for.
pub open spec fn unexpected_event_message() -> Seq<char> {
    "internal error: the run was handed what it did not wait for"@
}

/// The end of the run with the failure `error`: the exit status is the
/// failure's, and the failure is shown unless the run is quiet.
pub open spec fn failed(m: RunnerView, error: DiagnosticView) -> (RunnerView, ActionView) {
    (
        RunnerView { phase: Phase::Finished, waiting: Waiting::Nothing, code: error.code, ..m },
        ActionView::Finish {
            code: error.code,
            error: if m.config.quiet {
                None
            } else {
                Some(error)
            },
        },
    )
}

/// The request to run the command of a backtick.
pub open spec fn asked(m: RunnerView, command: Seq<char>, span: Span) -> (RunnerView, ActionView) {
    (
        RunnerView { waiting: Waiting::Output { span }, ..m },
        ActionView::Backtick { command, exports: exports(m), silent: m.config.quiet },
    )
}

/// What one move gives: the next state, or the state together with what the
/// caller is asked to do.
pub enum Move {
    Next { state: RunnerView },
    Emit { state: RunnerView, action: ActionView },
}

/// The move that hands a request to the caller.
pub open spec fn emit(pair: (RunnerView, ActionView)) -> Move {
    Move::Emit { state: pair.0, action: pair.1 }
}

/// The move while the variables are evaluated.
pub open spec fn assignments_move(m: RunnerView) -> Move {
    if m.index >= m.file.assignments.len() {
        Move::Next {
            state: RunnerView { phase: Phase::Binding, index: 0, item: 0, parameters: Seq::empty(), ..m },
        }
    } else {
        let a = m.file.assignments[m.index as int];
        let result = variable_value(
            scope_of(m.file.assignments, Seq::empty(), m.context),
            a.name,
            a.span,
            Seq::empty(),
            carried_of(m.context),
        );
        match result {
            Evaluated::Value { .. } => Move::Next {
                state: RunnerView { context: settled(m.context, result), index: m.index + 1, ..m },
            },
            Evaluated::Pending { command, span } => emit(asked(m, command, span)),
            Evaluated::Failed { error } => emit(failed(m, error)),
        }
    }
}

/// The recipe that step `index` of the plan runs, if the step names one.
pub open spec fn recipe_of(m: RunnerView) -> Option<RecipeView> {
    if m.index < m.plan.len() && m.plan[m.index as int].recipe < m.file.recipes.len() {
        Some(m.file.recipes[m.plan[m.index as int].recipe as int])
    } else {
        None
    }
}

/// The state at the start of the next step of the plan.
pub open spec fn next_recipe(m: RunnerView) -> RunnerView {
    RunnerView {
        phase: Phase::Binding,
        index: if m.index < m.plan.len() {
            m.index + 1
        } else {
            m.index
        },
        item: 0,
        parameters: Seq::empty(),
        script: Seq::empty(),
        waiting: Waiting::Nothing,
        ..m
    }
}

/// The move while the parameters of a recipe get their values: the
/// arguments in their order, then the defaults of the parameters that are
/// left. A number of arguments that the recipe does not take ends the run.
pub open spec fn binding_move(m: RunnerView) -> Move {
    if m.index >= m.plan.len() {
        emit(
            (
                RunnerView { phase: Phase::Finished, waiting: Waiting::Nothing, code: 0, ..m },
                ActionView::Finish { code: 0, error: None },
            ),
        )
    } else {
        match recipe_of(m) {
            None => Move::Next { state: next_recipe(m) },
            Some(recipe) => {
                let arguments = m.plan[m.index as int].arguments;
                let least = required(recipe.parameters);
                let most = recipe.parameters.len();
                if arguments.len() < least || arguments.len() > most {
                    emit(failed(m, failure(arity_message(recipe.name, arguments.len(), least, most))))
                } else if m.item >= recipe.parameters.len() {
                    Move::Next { state: RunnerView { phase: Phase::Lines, item: 0, script: Seq::empty(), ..m } }
                } else {
                    let parameter = recipe.parameters[m.item as int];
                    if m.item < arguments.len() {
                        Move::Next {
                            state: RunnerView {
                                item: m.item + 1,
                                parameters: m.parameters.push(
                                    BindingView { name: parameter.name, value: arguments[m.item as int] },
                                ),
                                ..m
                            },
                        }
                    } else {
                        match parameter.default {
                            None => emit(
                                failed(m, failure(arity_message(recipe.name, arguments.len(), least, most))),
                            ),
                            Some(e) => {
                                let result = expression_value(
                                    scope_of(m.file.assignments, Seq::empty(), m.context),
                                    e,
                                    Seq::empty(),
                                    carried_of(m.context),
                                );
                                match result {
                                    Evaluated::Value { text, .. } => Move::Next {
                                        state: RunnerView {
                                            context: settled(m.context, result),
                                            item: m.item + 1,
                                            parameters: m.parameters.push(
                                                BindingView { name: parameter.name, value: text },
                                            ),
                                            ..m
                                        },
                                    },
                                    Evaluated::Pending { command, span } => emit(asked(m, command, span)),
                                    Evaluated::Failed { error } => emit(failed(m, error)),
                                }
                            },
                        }
                    }
                }
            },
        }
    }
}

/// Whether a recipe is run as a script: its first line starts with `#!`.
pub open spec fn is_script(recipe: RecipeView) -> bool {
    recipe.lines.len() > 0 && recipe.lines[0].shebang
}

/// The lines `lines` from index `i` on, each followed by a newline, after
/// `done`.
pub open spec fn script_text(lines: Seq<Seq<char>>, i: int, done: Seq<char>) -> Seq<char>
    decreases lines.len() - i,
{
    if !(0 <= i < lines.len()) {
        done
    } else {
        script_text(lines, i + 1, done + lines[i] + "\n"@)
    }
}

/// The command of a line with the text `text`: the text without the `@`
/// that marks the line.
pub open spec fn command_of(line: LineView, text: Seq<char>) -> Seq<char> {
    if line.quiet && text.len() > 0 {
        text.skip(1)
    } else {
        text
    }
}

/// Whether a command is not run: it is empty, or a comment.
pub open spec fn is_skipped(command: Seq<char>) -> bool {
    command.len() == 0 || (blank_end(command, 0) < command.len() && command[blank_end(command, 0)] == '#')
}

/// Whether a line of a recipe is announced: a line is, unless it is marked
/// with `@`; in a recipe whose name is marked with `@` it is the other way
/// round. A quiet run announces nothing.
pub open spec fn announced(config: Config, recipe_quiet: bool, line_quiet: bool) -> bool {
    !config.quiet && (recipe_quiet == line_quiet)
}

/// The move while the lines of a recipe are run. The lines of a script are
/// evaluated one after the other and run together; any other line is run by
/// itself as soon as it is evaluated. In a dry run the text is shown and not
/// run.
pub open spec fn lines_move(m: RunnerView) -> Move {
    match recipe_of(m) {
        None => Move::Next { state: next_recipe(m) },
        Some(recipe) => {
            if m.item >= recipe.lines.len() {
                if is_script(recipe) {
                    let text = script_text(m.script, 0, Seq::empty());
                    let waiting = RunnerView { waiting: Waiting::Status, ..m };
                    if m.config.dry_run {
                        Move::Emit { state: waiting, action: ActionView::Announce { text } }
                    } else {
                        Move::Emit {
                            state: waiting,
                            action: ActionView::Script {
                                text,
                                exports: exports(m),
                                announce: announced(m.config, recipe.quiet, true),
                                silent: m.config.quiet,
                            },
                        }
                    }
                } else {
                    Move::Next { state: next_recipe(m) }
                }
            } else {
                let line = recipe.lines[m.item as int];
                let result = fragments_value(
                    scope_of(m.file.assignments, m.parameters, m.context),
                    line.fragments,
                    0,
                    Seq::empty(),
                    carried_of(m.context),
                );
                match result {
                    Evaluated::Pending { command, span } => emit(asked(m, command, span)),
                    Evaluated::Failed { error } => emit(failed(m, error)),
                    Evaluated::Value { text, .. } => {
                        let evaluated = RunnerView { context: settled(m.context, result), ..m };
                        if is_script(recipe) {
                            Move::Next {
                                state: RunnerView { item: m.item + 1, script: m.script.push(text), ..evaluated },
                            }
                        } else {
                            let command = command_of(line, text);
                            if is_skipped(command) {
                                Move::Next { state: RunnerView { item: m.item + 1, ..evaluated } }
                            } else if m.config.dry_run {
                                Move::Emit {
                                    state: RunnerView { waiting: Waiting::Status, ..evaluated },
                                    action: ActionView::Announce { text: command + "\n"@ },
                                }
                            } else {
                                Move::Emit {
                                    state: RunnerView { waiting: Waiting::Status, ..evaluated },
                                    action: ActionView::Command {
                                        command,
                                        exports: exports(evaluated),
                                        announce: announced(m.config, recipe.quiet, line.quiet),
                                        silent: m.config.quiet,
                                    },
                                }
                            }
                        }
                    },
                }
            }
        },
    }
}

/// One move of the run.
pub open spec fn moved(m: RunnerView) -> Move {
    match m.phase {
        Phase::Assignments => assignments_move(m),
        Phase::Binding => binding_move(m),
        Phase::Lines => if m.index >= m.plan.len() {
            binding_move(m)
        } else {
            lines_move(m)
        },
        Phase::Finished => Move::Emit { state: m, action: ActionView::Finish { code: m.code, error: None } },
    }
}

/// How far the run is from its end: the steps of the plan that are left,
/// then the part of the step, then the parameters or lines of that part.
pub open spec fn distance(m: RunnerView) -> (int, int, int) {
    match m.phase {
        Phase::Assignments => ((m.plan.len() + 1) as int, 0, m.file.assignments.len() - m.index),
        Phase::Binding => (
            m.plan.len() - m.index,
            1,
            match recipe_of(m) {
                Some(recipe) => recipe.parameters.len() - m.item,
                None => 0,
            },
        ),
        Phase::Lines => (
            m.plan.len() - m.index,
            0,
            match recipe_of(m) {
                Some(recipe) => recipe.lines.len() - m.item,
                None => 0,
            },
        ),
        Phase::Finished => (0, 0, 0),
    }
}

/// A move that asks nothing of the caller brings the run nearer to its end.
pub proof fn lemma_move_nearer(m: RunnerView)
    ensures
        moved(m) matches Move::Next { state } ==> decreases_to!(distance(m).0, distance(m).1, distance(m).2 => distance(state).0, distance(state).1, distance(state).2),
{
}

/// The state and the request that the run comes to from `m` by itself.
pub open spec fn advanced(m: RunnerView) -> (RunnerView, ActionView)
    decreases distance(m).0, distance(m).1, distance(m).2,
{
    proof {
        lemma_move_nearer(m);
    }
    match moved(m) {
        Move::Next { state } => advanced(state),
        Move::Emit { state, action } => (state, action),
    }
}

/// The state after a command or a script of the step has ended well: the
/// next line of the recipe, or after a script the next step of the plan.
pub open spec fn after_status(m: RunnerView) -> RunnerView {
    match recipe_of(m) {
        Some(recipe) => if m.item >= recipe.lines.len() {
            next_recipe(m)
        } else {
            RunnerView { item: m.item + 1, waiting: Waiting::Nothing, ..m }
        },
        None => next_recipe(m),
    }
}

/// The name of the recipe that runs.
pub open spec fn running(m: RunnerView) -> Seq<char> {
    match recipe_of(m) {
        Some(recipe) => recipe.name,
        None => Seq::empty(),
    }
}

/// The failure for a backtick that ended with the status `code`.
pub open spec fn backtick_failed(code: i32, span: Span) -> DiagnosticView {
    DiagnosticView { message: backtick_failed_message(code), span: Some(span), code }
}

/// The failure for a recipe a command of which ended with the status `code`.
pub open spec fn recipe_failed(recipe: Seq<char>, code: i32) -> DiagnosticView {
    DiagnosticView { message: recipe_failed_message(recipe, code), span: None, code }
}

/// The state and the request that follow when the run in state `m` is
/// handed `event`. A backtick or a command that ended with a status other
/// than 0 ends the run with that status. The output of a backtick is kept,
/// without the newline at its end, for the evaluation that asked for it.
pub open spec fn stepped(m: RunnerView, event: EventView) -> (RunnerView, ActionView) {
    if m.phase == Phase::Finished {
        (m, ActionView::Finish { code: m.code, error: None })
    } else {
        match (m.waiting, event) {
            (Waiting::Nothing, EventView::Start) => advanced(m),
            (Waiting::Output { span }, EventView::Captured { code, output }) => {
                if code != 0 {
                    failed(m, backtick_failed(code, span))
                } else {
                    advanced(
                        RunnerView {
                            context: ContextView {
                                captured: m.context.captured.push(without_newline(output)),
                                ..m.context
                            },
                            waiting: Waiting::Nothing,
                            ..m
                        },
                    )
                }
            },
            (Waiting::Status, EventView::Exited { code }) => {
                if code != 0 {
                    failed(m, recipe_failed(running(m), code))
                } else {
                    advanced(after_status(m))
                }
            },
            _ => failed(m, failure(unexpected_event_message())),
        }
    }
}

/// A run: the source, the plan, and how far the run has come.
#[derive(Debug, PartialEq, Eq)]
pub struct Runner {
    pub justfile: Justfile,
    pub plan: ExecutionPlan,
    pub config: Config,
    pub context: EvaluationContext,
    pub phase: Phase,
    pub index: usize,
    pub item: usize,
    pub parameters: Vec<Binding>,
    pub script: Vec<String>,
    pub waiting: Waiting,
    pub code: i32,
}

impl View for Runner {
    type V = RunnerView;

    open spec fn view(&self) -> RunnerView {
        RunnerView {
            file: self.justfile@,
            plan: self.plan@,
            config: self.config,
            context: self.context@,
            phase: self.phase,
            index: self.index as nat,
            item: self.item as nat,
            parameters: binding_views(self.parameters@),
            script: text_views(self.script@),
            waiting: self.waiting,
            code: self.code,
        }
    }
}

fn collect_exports(assignments: &Vec<Assignment>, context: &EvaluationContext) -> (found: Vec<Binding>)
    ensures
        binding_views(found@) == exports_from(assignment_views(assignments@), context@, 0, Seq::empty()),
{
    let mut found: Vec<Binding> = Vec::new();
    assert(binding_views(found@) =~= Seq::empty());
    let mut i: usize = 0;
    while i < assignments.len()
        invariant
            i <= assignments.len(),
            exports_from(assignment_views(assignments@), context@, i as int, binding_views(found@))
                == exports_from(assignment_views(assignments@), context@, 0, Seq::empty()),
        decreases assignments.len() - i,
    {
        let a = &assignments[i];
        assert(assignment_views(assignments@)[i as int] == a@);
        if a.exported {
            let value = match lookup(&context.overrides, &a.name) {
                Some(value) => Some(value),
                None => lookup(&context.values, &a.name),
            };
            if let Some(value) = value {
                let ghost before = binding_views(found@);
                let binding = Binding { name: a.name.clone(), value };
                found.push(binding);
                assert(binding_views(found@) =~= before.push(binding@));
            }
        }
        i += 1;
    }
    found
}

fn count_required(parameters: &Vec<Parameter>) -> (least: usize)
    ensures
        least == required(parameter_views(parameters@)),
        least <= parameters.len(),
{
    let mut least: usize = 0;
    let mut j: usize = 0;
    while j < parameters.len()
        invariant
            j <= parameters.len(),
            least <= j,
            required_from(parameter_views(parameters@), j as int, least as nat) == required(
                parameter_views(parameters@),
            ),
        decreases parameters.len() - j,
    {
        assert(parameter_views(parameters@)[j as int] == parameters@[j as int]@);
        if parameters[j].default.is_none() {
            least = j + 1;
        }
        j += 1;
    }
    least
}

fn arity_failure(recipe: &String, found: usize, least: usize, most: usize) -> (d: Diagnostic)
    ensures
        d@ == failure(arity_message(recipe@, found as nat, least as nat, most as nat)),
{
    let mut message = String::from_str("Recipe `");
    message.append(recipe.as_str());
    message.append("` got ");
    push_decimal(&mut message, found);
    if found == 1 {
        message.append(" argument");
    } else {
        message.append(" arguments");
    }
    if least == most {
        if found > most {
            message.append(" but only takes ");
        } else {
            message.append(" but takes ");
        }
        push_decimal(&mut message, most);
    } else if found < least {
        message.append(" but takes at least ");
        push_decimal(&mut message, least);
    } else {
        message.append(" but takes at most ");
        push_decimal(&mut message, most);
    }
    Diagnostic::plain(message)
}

fn join_script(lines: &Vec<String>) -> (text: String)
    ensures
        text@ == script_text(text_views(lines@), 0, Seq::empty()),
{
    let mut text = String::new();
    let mut i: usize = 0;
    while i < lines.len()
        invariant
            i <= lines.len(),
            script_text(text_views(lines@), i as int, text@) == script_text(
                text_views(lines@),
                0,
                Seq::empty(),
            ),
        decreases lines.len() - i,
    {
        assert(text_views(lines@)[i as int] == lines@[i as int]@);
        text.append(lines[i].as_str());
        text.append("\n");
        i += 1;
    }
    text
}

/// The command of a line and whether it is skipped.
fn command_for(quiet: bool, text: String) -> (r: (String, bool))
    ensures
        r.0@ == (if quiet && text@.len() > 0 {
            text@.skip(1)
        } else {
            text@
        }),
        r.1 == is_skipped(r.0@),
{
    let chars = chars_of(text.as_str());
    let from: usize = if quiet && chars.len() > 0 {
        1
    } else {
        0
    };
    let mut rest: Vec<char> = Vec::new();
    let mut i: usize = from;
    while i < chars.len()
        invariant
            from <= i <= chars.len(),
            rest@ == chars@.subrange(from as int, i as int),
        decreases chars.len() - i,
    {
        rest.push(chars[i]);
        i += 1;
        assert(chars@.subrange(from as int, i as int) == chars@.subrange(from as int, i - 1).push(
            chars@[i - 1],
        ));
    }
    assert(rest@ =~= (if quiet && text@.len() > 0 {
        text@.skip(1)
    } else {
        text@
    }));
    let at = scan_blank(&rest, 0);
    let skipped = rest.len() == 0 || (at < rest.len() && rest[at] == '#');
    assert(rest@.subrange(0, rest.len() as int) =~= rest@);
    (string_of_range(&rest, 0, rest.len()), skipped)
}

fn finish(config: Config, error: Diagnostic) -> (action: Action)
    ensures
        action@ == (ActionView::Finish {
            code: error.code,
            error: if config.quiet {
                None
            } else {
                Some(error@)
            },
        }),
{
    let code = error.code;
    if config.quiet {
        Action::Finish { code, error: None }
    } else {
        Action::Finish { code, error: Some(error) }
    }
}

/// Whether what a move gave is the move `m`.
pub open spec fn gives(r: Option<Action>, state: RunnerView, m: Move) -> bool {
    match r {
        None => m == (Move::Next { state }),
        Some(action) => m == (Move::Emit { state, action: action@ }),
    }
}

impl Runner {
    /// The run of `plan` on `justfile`, before it begins.
    pub fn new(justfile: Justfile, plan: ExecutionPlan, overrides: Vec<Binding>, config: Config) -> (runner:
        Runner)
        ensures
            runner@ == initial(justfile@, plan@, binding_views(overrides@), config),
    {
        let runner = Runner {
            justfile,
            plan,
            config,
            context: EvaluationContext::new(overrides),
            phase: Phase::Assignments,
            index: 0,
            item: 0,
            parameters: Vec::new(),
            script: Vec::new(),
            waiting: Waiting::Nothing,
            code: 0,
        };
        assert(binding_views(runner.parameters@) =~= Seq::empty());
        assert(text_views(runner.script@) =~= Seq::empty());
        runner
    }

    fn fail(&mut self, error: Diagnostic) -> (action: Action)
        ensures
            (final(self)@, action@) == failed(old(self)@, error@),
    {
        self.phase = Phase::Finished;
        self.waiting = Waiting::Nothing;
        self.code = error.code;
        finish(self.config, error)
    }

    fn ask(&mut self, command: String, span: Span) -> (action: Action)
        ensures
            (final(self)@, action@) == asked(old(self)@, command@, span),
    {
        let exports = collect_exports(&self.justfile.assignments, &self.context);
        self.waiting = Waiting::Output { span };
        Action::Backtick { command, exports, silent: self.config.quiet }
    }

    fn enter(&mut self)
        ensures
            final(self)@ == next_recipe(old(self)@),
    {
        self.phase = Phase::Binding;
        if self.index < self.plan.steps.len() {
            self.index = self.index + 1;
        }
        self.item = 0;
        self.parameters = Vec::new();
        self.script = Vec::new();
        self.waiting = Waiting::Nothing;
        assert(binding_views(self.parameters@) =~= Seq::empty());
        assert(text_views(self.script@) =~= Seq::empty());
    }

    fn move_assignments(&mut self) -> (r: Option<Action>)
        ensures
            gives(r, final(self)@, assignments_move(old(self)@)),
    {
        if self.index >= self.justfile.assignments.len() {
            self.phase = Phase::Binding;
            self.index = 0;
            self.item = 0;
            self.parameters = Vec::new();
            assert(binding_views(self.parameters@) =~= Seq::empty());
            return None;
        }
        assert(self@.file.assignments[self.index as int] == self.justfile.assignments@[self.index as int]@);
        let name = self.justfile.assignments[self.index].name.clone();
        let span = self.justfile.assignments[self.index].span;
        match value_of(&name, span, &self.justfile.assignments, &mut self.context) {
            Evaluation::Value { .. } => {
                self.index = self.index + 1;
                None
            },
            Evaluation::Pending { command, span } => Some(self.ask(command, span)),
            Evaluation::Failed { error } => Some(self.fail(error)),
        }
    }

    /// The index of the recipe of the step that runs, if the step names one.
    fn current(&self) -> (found: Option<usize>)
        ensures
            match found {
                Some(i) => self.index < self.plan.steps.len() && i == self.plan.steps@[self.index as int].recipe
                    && i < self.justfile.recipes.len() && recipe_of(self@) == Some(
                    self.justfile.recipes@[i as int]@,
                ),
                None => recipe_of(self@) is None,
            },
    {
        if self.index < self.plan.steps.len() {
            assert(self@.plan[self.index as int] == self.plan.steps@[self.index as int]@);
            let i = self.plan.steps[self.index].recipe;
            if i < self.justfile.recipes.len() {
                assert(self@.file.recipes[i as int] == self.justfile.recipes@[i as int]@);
                return Some(i);
            }
        }
        None
    }

    fn move_binding(&mut self) -> (r: Option<Action>)
        ensures
            gives(r, final(self)@, binding_move(old(self)@)),
    {
        if self.index >= self.plan.steps.len() {
            self.phase = Phase::Finished;
            self.waiting = Waiting::Nothing;
            self.code = 0;
            return Some(Action::Finish { code: 0, error: None });
        }
        let at = match self.current() {
            Some(at) => at,
            None => {
                self.enter();
                return None;
            },
        };
        assert(self@.plan[self.index as int] == self.plan.steps@[self.index as int]@);
        let found = self.plan.steps[self.index].arguments.len();
        let least = count_required(&self.justfile.recipes[at].parameters);
        let most = self.justfile.recipes[at].parameters.len();
        if found < least || found > most {
            let error = arity_failure(&self.justfile.recipes[at].name, found, least, most);
            return Some(self.fail(error));
        }
        if self.item >= most {
            self.phase = Phase::Lines;
            self.item = 0;
            self.script = Vec::new();
            assert(text_views(self.script@) =~= Seq::empty());
            return None;
        }
        let ghost recipe = self.justfile.recipes@[at as int]@;
        let ghost known = binding_views(self.parameters@);
        assert(recipe.parameters[self.item as int] == self.justfile.recipes@[at as int].parameters@[self.item as int]@);
        let name = self.justfile.recipes[at].parameters[self.item].name.clone();
        if self.item < found {
            assert(text_views(self.plan.steps@[self.index as int].arguments@)[self.item as int]
                == self.plan.steps@[self.index as int].arguments@[self.item as int]@);
            let binding = Binding { name, value: self.plan.steps[self.index].arguments[self.item].clone() };
            self.parameters.push(binding);
            assert(binding_views(self.parameters@) =~= known.push(binding@));
            self.item = self.item + 1;
            return None;
        }
        let none: Vec<Binding> = Vec::new();
        assert(binding_views(none@) =~= Seq::empty());
        let result = match &self.justfile.recipes[at].parameters[self.item].default {
            None => {
                let error = arity_failure(&self.justfile.recipes[at].name, found, least, most);
                return Some(self.fail(error));
            },
            Some(e) => evaluate(e, &self.justfile.assignments, &none, &mut self.context),
        };
        match result {
            Evaluation::Value { text } => {
                let binding = Binding { name, value: text };
                self.parameters.push(binding);
                assert(binding_views(self.parameters@) =~= known.push(binding@));
                self.item = self.item + 1;
                None
            },
            Evaluation::Pending { command, span } => Some(self.ask(command, span)),
            Evaluation::Failed { error } => Some(self.fail(error)),
        }
    }

    fn move_lines(&mut self) -> (r: Option<Action>)
        requires
            old(self).index < old(self).plan.steps.len(),
        ensures
            gives(r, final(self)@, lines_move(old(self)@)),
    {
        let at = match self.current() {
            Some(at) => at,
            None => {
                self.enter();
                return None;
            },
        };
        let ghost recipe = self.justfile.recipes@[at as int]@;
        let count = self.justfile.recipes[at].lines.len();
        let script = count > 0 && self.justfile.recipes[at].lines[0].shebang;
        proof {
            if count > 0 {
                assert(recipe.lines[0] == self.justfile.recipes@[at as int].lines@[0]@);
            }
        }
        let recipe_quiet = self.justfile.recipes[at].quiet;
        if self.item >= count {
            if script {
                let text = join_script(&self.script);
                if self.config.dry_run {
                    self.waiting = Waiting::Status;
                    return Some(Action::Announce { text });
                }
                let exports = collect_exports(&self.justfile.assignments, &self.context);
                self.waiting = Waiting::Status;
                return Some(
                    Action::Script {
                        text,
                        exports,
                        announce: !self.config.quiet && recipe_quiet,
                        silent: self.config.quiet,
                    },
                );
            }
            self.enter();
            return None;
        }
        assert(recipe.lines[self.item as int] == self.justfile.recipes@[at as int].lines@[self.item as int]@);
        let line_quiet = self.justfile.recipes[at].lines[self.item].quiet;
        let result = evaluate_line(
            &self.justfile.recipes[at].lines[self.item].fragments,
            &self.justfile.assignments,
            &self.parameters,
            &mut self.context,
        );
        match result {
            Evaluation::Pending { command, span } => Some(self.ask(command, span)),
            Evaluation::Failed { error } => Some(self.fail(error)),
            Evaluation::Value { text } => {
                if script {
                    let ghost lines = text_views(self.script@);
                    self.script.push(text);
                    assert(text_views(self.script@) =~= lines.push(text@));
                    self.item = self.item + 1;
                    return None;
                }
                let (command, skipped) = command_for(line_quiet, text);
                if skipped {
                    self.item = self.item + 1;
                    None
                } else if self.config.dry_run {
                    self.waiting = Waiting::Status;
                    let mut shown = command;
                    shown.append("\n");
                    Some(Action::Announce { text: shown })
                } else {
                    let exports = collect_exports(&self.justfile.assignments, &self.context);
                    self.waiting = Waiting::Status;
                    Some(
                        Action::Command {
                            command,
                            exports,
                            announce: !self.config.quiet && (recipe_quiet == line_quiet),
                            silent: self.config.quiet,
                        },
                    )
                }
            },
        }
    }

    fn advance(&mut self) -> (action: Action)
        ensures
            (final(self)@, action@) == advanced(old(self)@),
    {
        loop
            invariant
                advanced(self@) == advanced(old(self)@),
            decreases distance(self@).0, distance(self@).1, distance(self@).2,
        {
            proof {
                lemma_move_nearer(self@);
            }
            let moved = match self.phase {
                Phase::Assignments => self.move_assignments(),
                Phase::Binding => self.move_binding(),
                Phase::Lines => if self.index >= self.plan.steps.len() {
                    self.move_binding()
                } else {
                    self.move_lines()
                },
                Phase::Finished => Some(Action::Finish { code: self.code, error: None }),
            };
            if let Some(action) = moved {
                return action;
            }
        }
    }

    /// Takes the run one step on: it is handed what the caller did, and says
    /// what the caller is to do next.
    ///
    /// The state after the step and the request are `stepped` of the state
    /// before it and the event.
    pub fn step(&mut self, event: Event) -> (action: Action)
        ensures
            (final(self)@, action@) == stepped(old(self)@, event@),
    {
        if self.phase == Phase::Finished {
            return Action::Finish { code: self.code, error: None };
        }
        match (self.waiting, event) {
            (Waiting::Nothing, Event::Start) => self.advance(),
            (Waiting::Output { span }, Event::Captured { code, output }) => {
                if code != 0 {
                    let mut message = String::from_str("backtick failed with exit code ");
                    push_signed_decimal(&mut message, code);
                    self.fail(Diagnostic { message, span: Some(span), code })
                } else {
                    self.context.capture(output.as_str());
                    self.waiting = Waiting::Nothing;
                    self.advance()
                }
            },
            (Waiting::Status, Event::Exited { code }) => {
                if code != 0 {
                    let mut message = String::from_str("Recipe `");
                    match self.current() {
                        Some(at) => {
                            message.append(self.justfile.recipes[at].name.as_str());
                        },
                        None => {
                            assert(message@ + Seq::<char>::empty() =~= message@);
                        },
                    }
                    message.append("` failed with exit code ");
                    push_signed_decimal(&mut message, code);
                    self.fail(Diagnostic { message, span: None, code })
                } else {
                    match self.current() {
                        Some(at) => {
                            assert(self@.file.recipes[at as int].lines.len()
                                == self.justfile.recipes@[at as int].lines@.len());
                            if self.item >= self.justfile.recipes[at].lines.len() {
                                self.enter();
                            } else {
                                self.item = self.item + 1;
                                self.waiting = Waiting::Nothing;
                            }
                        },
                        None => {
                            self.enter();
                        },
                    }
                    self.advance()
                }
            },
            _ => {
                let error = Diagnostic::plain(
                    String::from_str("internal error: the run was handed what it did not wait for"),
                );
                self.fail(error)
            },
        }
    }
}

/// Whether a request lets nothing be seen: no command is announced, what a
/// command writes is thrown away, and no failure is shown.
pub open spec fn shows_nothing(action: ActionView) -> bool {
    match action {
        ActionView::Backtick { silent, .. } => silent,
        ActionView::Command { announce, silent, .. } => silent && !announce,
        ActionView::Script { announce, silent, .. } => silent && !announce,
        ActionView::Announce { .. } => false,
        ActionView::Finish { error, .. } => error is None,
    }
}

/// A move keeps the source, the plan and the way the run is to go.
pub proof fn lemma_move_keeps_setup(m: RunnerView)
    ensures
        match moved(m) {
            Move::Next { state } => state.config == m.config && state.file == m.file && state.plan == m.plan,
            Move::Emit { state, .. } => state.config == m.config && state.file == m.file && state.plan
                == m.plan,
        },
{
}

/// What a quiet run asks for by itself lets nothing be seen.
pub proof fn lemma_quiet_advance(m: RunnerView)
    requires
        m.config.quiet,
        !m.config.dry_run,
    ensures
        shows_nothing(advanced(m).1),
        advanced(m).0.config == m.config,
    decreases distance(m).0, distance(m).1, distance(m).2,
{
    lemma_move_nearer(m);
    lemma_move_keeps_setup(m);
    match moved(m) {
        Move::Next { state } => {
            lemma_quiet_advance(state);
        },
        Move::Emit { state, action } => {},
    }
}

/// In a quiet run nothing is seen, whatever the source holds and however
/// its commands end: every request of the run throws away what is written,
/// announces no command and shows no failure.
pub proof fn lemma_quiet_run_shows_nothing(m: RunnerView, event: EventView)
    requires
        m.config.quiet,
        !m.config.dry_run,
    ensures
        shows_nothing(stepped(m, event).1),
        stepped(m, event).0.config == m.config,
{
    if m.phase != Phase::Finished {
        match (m.waiting, event) {
            (Waiting::Nothing, EventView::Start) => {
                lemma_quiet_advance(m);
            },
            (Waiting::Output { span }, EventView::Captured { code, output }) => {
                if code == 0 {
                    lemma_quiet_advance(
                        RunnerView {
                            context: ContextView {
                                captured: m.context.captured.push(without_newline(output)),
                                ..m.context
                            },
                            waiting: Waiting::Nothing,
                            ..m
                        },
                    );
                }
            },
            (Waiting::Status, EventView::Exited { code }) => {
                if code == 0 {
                    lemma_quiet_advance(after_status(m));
                }
            },
            _ => {},
        }
    }
}

/// Whether a request ends the run with the status `code`.
pub open spec fn ends_with(action: ActionView, code: i32) -> bool {
    action matches ActionView::Finish { code: status, .. } && status == code
}

/// The status with which a backtick or a command fails is the status with
/// which the run ends.
pub proof fn lemma_failure_status_ends_run(m: RunnerView, code: i32, output: Seq<char>)
    requires
        m.phase != Phase::Finished,
        code != 0,
    ensures
        m.waiting is Output ==> ends_with(stepped(m, EventView::Captured { code, output }).1, code),
        m.waiting is Status ==> ends_with(stepped(m, EventView::Exited { code }).1, code),
{
}

/// A variable that has a value from the command line is passed over when the
/// variables are evaluated: no command is asked for, whatever the source
/// assigns to the variable, and the run goes on to the next variable.
pub proof fn lemma_overridden_assignment_is_not_run(m: RunnerView)
    requires
        m.phase == Phase::Assignments,
        m.index < m.file.assignments.len(),
        bound(m.context.overrides, m.file.assignments[m.index as int].name) is Some,
    ensures
        moved(m) is Next,
        moved(m)->Next_state.index == m.index + 1,
        moved(m)->Next_state.phase == Phase::Assignments,
        moved(m)->Next_state.context.values == m.context.values,
{
    let a = m.file.assignments[m.index as int];
    lemma_override_is_final(
        scope_of(m.file.assignments, Seq::empty(), m.context),
        a.name,
        a.span,
        Seq::empty(),
        carried_of(m.context),
        bound(m.context.overrides, a.name)->0,
    );
}


/// The step of the plan that the run has come to.
pub open spec fn at_step(m: RunnerView) -> nat {
    if m.phase == Phase::Assignments {
        0
    } else {
        m.index
    }
}

/// Whether a request ends the run well.
pub open spec fn ends_well(action: ActionView) -> bool {
    action matches ActionView::Finish { code, .. } && code == 0
}

/// A move stays at the step of the plan or goes to the next one: no step is
/// passed over. Only the move after the last step ends the run well.
pub proof fn lemma_move_in_order(m: RunnerView)
    requires
        m.phase != Phase::Finished,
    ensures
        match moved(m) {
            Move::Next { state } => at_step(state) == at_step(m) || at_step(state) == at_step(m) + 1,
            Move::Emit { state, action } => at_step(state) >= at_step(m) && (m.phase != Phase::Assignments
                ==> state.index == m.index) && (ends_well(action) ==> m.index >= m.plan.len() && m.phase
                != Phase::Assignments),
        },
{
    let none = Seq::<BindingView>::empty();
    match m.phase {
        Phase::Assignments => {
            if m.index < m.file.assignments.len() {
                let a = m.file.assignments[m.index as int];
                lemma_variable_failure_status(
                    scope_of(m.file.assignments, none, m.context),
                    a.name,
                    a.span,
                    Seq::empty(),
                    carried_of(m.context),
                );
            }
        },
        _ => {
            if let Some(recipe) = recipe_of(m) {
                if m.phase == Phase::Binding && m.item < recipe.parameters.len() {
                    if let Some(e) = recipe.parameters[m.item as int].default {
                        lemma_expression_failure_status(
                            scope_of(m.file.assignments, none, m.context),
                            e,
                            Seq::empty(),
                            carried_of(m.context),
                        );
                    }
                }
                if m.phase == Phase::Lines && m.item < recipe.lines.len() {
                    lemma_fragments_failure_status(
                        scope_of(m.file.assignments, m.parameters, m.context),
                        recipe.lines[m.item as int].fragments,
                        0,
                        Seq::empty(),
                        carried_of(m.context),
                    );
                }
            }
        },
    }
}

/// By itself the run goes through the steps of the plan in their order, and
/// it ends well only when it has gone through all of them.
pub proof fn lemma_advance_in_order(m: RunnerView)
    requires
        m.phase != Phase::Finished,
    ensures
        at_step(advanced(m).0) >= at_step(m),
        ends_well(advanced(m).1) ==> advanced(m).0.index >= m.plan.len(),
    decreases distance(m).0, distance(m).1, distance(m).2,
{
    lemma_move_nearer(m);
    lemma_move_in_order(m);
    lemma_move_keeps_setup(m);
    match moved(m) {
        Move::Next { state } => {
            lemma_advance_in_order(state);
        },
        Move::Emit { state, action } => {},
    }
}

/// A run that is under way ends well only after the last step of the plan:
/// every step is gone through, in the order of the plan, before the run ends
/// with the status 0.
pub proof fn lemma_run_ends_well_after_last_step(m: RunnerView, event: EventView)
    requires
        m.phase != Phase::Finished,
    ensures
        at_step(stepped(m, event).0) >= at_step(m),
        ends_well(stepped(m, event).1) ==> stepped(m, event).0.index >= m.plan.len(),
{
    match (m.waiting, event) {
        (Waiting::Nothing, EventView::Start) => {
            lemma_advance_in_order(m);
        },
        (Waiting::Output { span }, EventView::Captured { code, output }) => {
            if code == 0 {
                lemma_advance_in_order(
                    RunnerView {
                        context: ContextView {
                            captured: m.context.captured.push(without_newline(output)),
                            ..m.context
                        },
                        waiting: Waiting::Nothing,
                        ..m
                    },
                );
            }
        },
        (Waiting::Status, EventView::Exited { code }) => {
            if code == 0 {
                lemma_advance_in_order(after_status(m));
            }
        },
        _ => {},
    }
}

} // verus!
