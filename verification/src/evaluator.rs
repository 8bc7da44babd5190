use vstd::prelude::*;
use vstd::string::StringExecFns;
use crate::ast::{
    assignment_index, assignment_views, find_assignment, fragment_views, lemma_assignment_index,
    optional_text, Assignment, AssignmentView, Expression, ExpressionView, Fragment, FragmentView,
};
use crate::diagnostic::{failure_at, Diagnostic, DiagnosticView, Span, FAILURE};
use crate::graph::lemma_distinct_bounded;
use crate::resolver::text_views;
use crate::text::{chars_of, string_of_range};

verus! {

/// A name with the value that it stands for.
#[derive(Clone, Debug, PartialEq, Eq)]
pub struct Binding {
    pub name: String,
    pub value: String,
}

pub struct BindingView {
    pub name: Seq<char>,
    pub value: Seq<char>,
}

impl View for Binding {
    type V = BindingView;

    open spec fn view(&self) -> BindingView {
        BindingView { name: self.name@, value: self.value@ }
    }
}

/// The views of the bindings of `bindings`, in order.
pub open spec fn binding_views(bindings: Seq<Binding>) -> Seq<BindingView> {
    bindings.map_values(|b: Binding| b@)
}

/// The value of the first binding of `name` at or after index `from`.
pub open spec fn bound_from(bindings: Seq<BindingView>, name: Seq<char>, from: int) -> Option<Seq<char>>
    decreases bindings.len() - from,
{
    if !(0 <= from < bindings.len()) {
        None
    } else if bindings[from].name == name {
        Some(bindings[from].value)
    } else {
        bound_from(bindings, name, from + 1)
    }
}

/// The value that `bindings` gives to `name`: that of the first binding of it.
pub open spec fn bound(bindings: Seq<BindingView>, name: Seq<char>) -> Option<Seq<char>> {
    bound_from(bindings, name, 0)
}

/// What the evaluation of an expression needs beside the expression: the
/// assignments of the source, the values given on the command line, the
/// values of the parameters in scope, and the outputs of the backticks that
/// were run for this evaluation so far, in the order in which they were run.
pub struct Scope {
    pub assignments: Seq<AssignmentView>,
    pub overrides: Seq<BindingView>,
    pub parameters: Seq<BindingView>,
    pub captured: Seq<Seq<char>>,
}

/// What an evaluation carries along: the values of the variables that are
/// known, and the number of captured outputs that it has used.
pub struct Carried {
    pub values: Seq<BindingView>,
    pub used: nat,
}

/// The result of an evaluation.
pub enum Evaluated {
    /// The value, and what is carried on.
    Value { text: Seq<char>, carried: Carried },
    /// The backtick at `span` has to be run before the value is known.
    Pending { command: Seq<char>, span: Span },
    /// There is no value.
    Failed { error: DiagnosticView },
}

/// The message for a name that stands for nothing.
pub open spec fn undefined_variable_message(name: Seq<char>) -> Seq<char> {
    "variable `"@ + name + "` not defined"@
}

/// The message for a variable whose value is asked for while it is computed.
pub open spec fn circular_variable_message(name: Seq<char>) -> Seq<char> {
    "variable `"@ + name + "` depends on its own value"@
}

/// Whether `stack` holds indices of `assignments`, none of them twice.
pub open spec fn nesting_ok(assignments: Seq<AssignmentView>, stack: Seq<usize>) -> bool {
    &&& stack.no_duplicates()
    &&& forall|i: int| 0 <= i < stack.len() ==> #[trigger] stack[i] < assignments.len()
}

/// The value of the variable `name`, which the expression at `span` refers
/// to. A parameter in scope comes first, then a value given on the command
/// line: the assignment to an overridden variable is never evaluated. A value
/// that is known already is not computed again. Otherwise the assignment to
/// `name` is evaluated and its value is kept. `stack` holds the assignments
/// whose evaluation is under way.
pub open spec fn variable_value(
    scope: Scope,
    name: Seq<char>,
    span: Span,
    stack: Seq<usize>,
    carried: Carried,
) -> Evaluated
    decreases scope.assignments.len() - stack.len(), 0int, (ExpressionView::Variable { name, span }),
    when nesting_ok(scope.assignments, stack)
{
    match bound(scope.parameters, name) {
        Some(text) => Evaluated::Value { text, carried },
        None => match bound(scope.overrides, name) {
            Some(text) => Evaluated::Value { text, carried },
            None => match bound(carried.values, name) {
                Some(text) => Evaluated::Value { text, carried },
                None => match assignment_index(scope.assignments, name) {
                    None => Evaluated::Failed { error: failure_at(undefined_variable_message(name), span) },
                    Some(i) => {
                        if stack.contains(i as usize) {
                            Evaluated::Failed { error: failure_at(circular_variable_message(name), span) }
                        } else {
                            proof {
                                lemma_assignment_index(scope.assignments, name, 0);
                                let longer = stack.push(i as usize);
                                assert(longer.no_duplicates());
                                lemma_distinct_bounded(longer, scope.assignments.len());
                            }
                            match expression_value(
                                scope,
                                scope.assignments[i].expression,
                                stack.push(i as usize),
                                carried,
                            ) {
                                Evaluated::Value { text, carried: after } => Evaluated::Value {
                                    text,
                                    carried: Carried {
                                        values: after.values.push(BindingView { name, value: text }),
                                        ..after
                                    },
                                },
                                other => other,
                            }
                        }
                    },
                },
            },
        },
    }
}

/// The value of the expression `e`. A string is its text. A concatenation is
/// the value of its left side followed by that of its right side, the left
/// side evaluated first. A backtick is the next captured output; if there is
/// none, the evaluation stops there and asks for the command to be run.
pub open spec fn expression_value(scope: Scope, e: ExpressionView, stack: Seq<usize>, carried: Carried) -> Evaluated
    decreases scope.assignments.len() - stack.len(), 1int, e,
    when nesting_ok(scope.assignments, stack)
{
    match e {
        ExpressionView::StringLiteral { text, .. } => Evaluated::Value { text, carried },
        ExpressionView::Variable { name, span } => variable_value(scope, name, span, stack, carried),
        ExpressionView::Backtick { command, span } => {
            if carried.used < scope.captured.len() {
                Evaluated::Value {
                    text: scope.captured[carried.used as int],
                    carried: Carried { used: carried.used + 1, ..carried },
                }
            } else {
                Evaluated::Pending { command, span }
            }
        },
        ExpressionView::Concatenation { left, right } => match expression_value(scope, *left, stack, carried) {
            Evaluated::Value { text: first, carried: between } => match expression_value(
                scope,
                *right,
                stack,
                between,
            ) {
                Evaluated::Value { text: second, carried: after } => Evaluated::Value {
                    text: first + second,
                    carried: after,
                },
                other => other,
            },
            other => other,
        },
    }
}

/// What a command printed, without the newline at its end if it ends in one.
pub open spec fn without_newline(output: Seq<char>) -> Seq<char> {
    if output.len() > 0 && output.last() == '\n' {
        output.drop_last()
    } else {
        output
    }
}

/// Removes the newline at the end of what a command printed, if it ends in
/// one. Nothing else is changed.
pub fn trim_newline(output: &str) -> (text: String)
    ensures
        text@ == without_newline(output@),
{
    let chars = chars_of(output);
    if chars.len() > 0 && chars[chars.len() - 1] == '\n' {
        string_of_range(&chars, 0, chars.len() - 1)
    } else {
        String::from_str(output)
    }
}

/// The text of a body line: its fragments from index `i` on, each text as it
/// stands and each interpolation by its value, after the text `done`.
pub open spec fn fragments_value(
    scope: Scope,
    fragments: Seq<FragmentView>,
    i: int,
    done: Seq<char>,
    carried: Carried,
) -> Evaluated
    decreases fragments.len() - i,
{
    if !(0 <= i < fragments.len()) {
        Evaluated::Value { text: done, carried }
    } else {
        match fragments[i] {
            FragmentView::Text { text } => fragments_value(scope, fragments, i + 1, done + text, carried),
            FragmentView::Interpolation { expression } => match expression_value(
                scope,
                expression,
                Seq::empty(),
                carried,
            ) {
                Evaluated::Value { text, carried: after } => fragments_value(
                    scope,
                    fragments,
                    i + 1,
                    done + text,
                    after,
                ),
                other => other,
            },
        }
    }
}

/// The result of an evaluation, as the evaluator gives it.
#[derive(Debug, PartialEq, Eq)]
pub enum Evaluation {
    /// The value.
    Value { text: String },
    /// The command of the backtick at `span` has to be run first.
    Pending { command: String, span: Span },
    /// There is no value.
    Failed { error: Diagnostic },
}

/// What the evaluator gave, with what it carries on.
pub open spec fn outcome(r: Evaluation, values: Seq<Binding>, used: usize) -> Evaluated {
    match r {
        Evaluation::Value { text } => Evaluated::Value {
            text: text@,
            carried: Carried { values: binding_views(values), used: used as nat },
        },
        Evaluation::Pending { command, span } => Evaluated::Pending { command: command@, span },
        Evaluation::Failed { error } => Evaluated::Failed { error: error@ },
    }
}

/// The value that `bindings` gives to `name`.
pub fn lookup(bindings: &Vec<Binding>, name: &String) -> (found: Option<String>)
    ensures
        optional_text(found) == bound(binding_views(bindings@), name@),
{
    let mut i: usize = 0;
    while i < bindings.len()
        invariant
            i <= bindings.len(),
            bound_from(binding_views(bindings@), name@, i as int) == bound(binding_views(bindings@), name@),
        decreases bindings.len() - i,
    {
        assert(binding_views(bindings@)[i as int] == bindings@[i as int]@);
        if bindings[i].name == *name {
            return Some(bindings[i].value.clone());
        }
        i += 1;
    }
    None
}

/// A copy of `bindings`.
pub fn copy_bindings(bindings: &Vec<Binding>) -> (copy: Vec<Binding>)
    ensures
        binding_views(copy@) == binding_views(bindings@),
{
    let mut copy: Vec<Binding> = Vec::new();
    let mut i: usize = 0;
    while i < bindings.len()
        invariant
            i <= bindings.len(),
            copy.len() == i,
            forall|j: int| 0 <= j < i ==> copy@[j]@ == bindings@[j]@,
        decreases bindings.len() - i,
    {
        copy.push(Binding { name: bindings[i].name.clone(), value: bindings[i].value.clone() });
        i += 1;
    }
    assert(binding_views(copy@) =~= binding_views(bindings@));
    copy
}

/// What the evaluator reads: the assignments of the source, the values given
/// on the command line, the parameters in scope and the captured outputs.
pub struct Environment<'a> {
    pub assignments: &'a Vec<Assignment>,
    pub overrides: &'a Vec<Binding>,
    pub parameters: &'a Vec<Binding>,
    pub captured: &'a Vec<String>,
}

impl<'a> View for Environment<'a> {
    type V = Scope;

    open spec fn view(&self) -> Scope {
        Scope {
            assignments: assignment_views(self.assignments@),
            overrides: binding_views(self.overrides@),
            parameters: binding_views(self.parameters@),
            captured: text_views(self.captured@),
        }
    }
}

fn variable_failure(head: &str, name: &String, tail: &str, span: Span) -> (d: Diagnostic)
    ensures
        d@ == failure_at(head@ + name@ + tail@, span),
{
    let mut message = String::from_str(head);
    message.append(name.as_str());
    message.append(tail);
    Diagnostic::at(message, span)
}

fn evaluate_variable(
    env: &Environment,
    name: &String,
    span: Span,
    stack: &mut Vec<usize>,
    values: &mut Vec<Binding>,
    used: &mut usize,
) -> (r: Evaluation)
    requires
        nesting_ok(env@.assignments, old(stack)@),
    ensures
        outcome(r, final(values)@, *final(used)) == variable_value(
            env@,
            name@,
            span,
            old(stack)@,
            Carried { values: binding_views(old(values)@), used: *old(used) as nat },
        ),
        r is Value ==> final(stack)@ == old(stack)@,
    decreases env.assignments.len() - old(stack).len(), 0int, (ExpressionView::Variable { name: name@, span }),
{
    if let Some(text) = lookup(env.parameters, name) {
        return Evaluation::Value { text };
    }
    if let Some(text) = lookup(env.overrides, name) {
        return Evaluation::Value { text };
    }
    if let Some(text) = lookup(values, name) {
        return Evaluation::Value { text };
    }
    match find_assignment(env.assignments, name) {
        None => Evaluation::Failed { error: variable_failure("variable `", name, "` not defined", span) },
        Some(i) => {
            if crate::graph::on_stack(stack, i) {
                return Evaluation::Failed {
                    error: variable_failure("variable `", name, "` depends on its own value", span),
                };
            }
            let ghost before = stack@;
            stack.push(i);
            proof {
                assert(stack@.no_duplicates());
                lemma_distinct_bounded(stack@, env.assignments.len() as nat);
                assert(assignment_views(env.assignments@)[i as int] == env.assignments@[i as int]@);
            }
            match evaluate_expression(env, &env.assignments[i].expression, stack, values, used) {
                Evaluation::Value { text } => {
                    stack.pop();
                    assert(stack@ == before);
                    let ghost known = binding_views(values@);
                    let binding = Binding { name: name.clone(), value: text.clone() };
                    values.push(binding);
                    assert(binding_views(values@) =~= known.push(binding@));
                    Evaluation::Value { text }
                },
                other => other,
            }
        },
    }
}

fn evaluate_expression(
    env: &Environment,
    e: &Expression,
    stack: &mut Vec<usize>,
    values: &mut Vec<Binding>,
    used: &mut usize,
) -> (r: Evaluation)
    requires
        nesting_ok(env@.assignments, old(stack)@),
    ensures
        outcome(r, final(values)@, *final(used)) == expression_value(
            env@,
            e@,
            old(stack)@,
            Carried { values: binding_views(old(values)@), used: *old(used) as nat },
        ),
        r is Value ==> final(stack)@ == old(stack)@,
    decreases env.assignments.len() - old(stack).len(), 1int, e@,
{
    match e {
        Expression::StringLiteral { text, .. } => Evaluation::Value { text: text.clone() },
        Expression::Variable { name, span } => evaluate_variable(env, name, *span, stack, values, used),
        Expression::Backtick { command, span } => {
            if *used < env.captured.len() {
                assert(text_views(env.captured@)[*used as int] == env.captured@[*used as int]@);
                let text = env.captured[*used].clone();
                *used = *used + 1;
                Evaluation::Value { text }
            } else {
                Evaluation::Pending { command: command.clone(), span: *span }
            }
        },
        Expression::Concatenation { left, right } => {
            match evaluate_expression(env, left, stack, values, used) {
                Evaluation::Value { text: first } => match evaluate_expression(env, right, stack, values, used) {
                    Evaluation::Value { text: second } => Evaluation::Value {
                        text: first.concat(second.as_str()),
                    },
                    other => other,
                },
                other => other,
            }
        },
    }
}

fn evaluate_fragments(
    env: &Environment,
    fragments: &Vec<Fragment>,
    values: &mut Vec<Binding>,
    used: &mut usize,
) -> (r: Evaluation)
    ensures
        outcome(r, final(values)@, *final(used)) == fragments_value(
            env@,
            fragment_views(fragments@),
            0,
            Seq::empty(),
            Carried { values: binding_views(old(values)@), used: *old(used) as nat },
        ),
{
    let ghost start = Carried { values: binding_views(values@), used: *used as nat };
    let mut done = String::new();
    let mut i: usize = 0;
    while i < fragments.len()
        invariant
            i <= fragments.len(),
            start == (Carried { values: binding_views(old(values)@), used: *old(used) as nat }),
            fragments_value(
                env@,
                fragment_views(fragments@),
                i as int,
                done@,
                Carried { values: binding_views(values@), used: *used as nat },
            ) == fragments_value(env@, fragment_views(fragments@), 0, Seq::empty(), start),
        decreases fragments.len() - i,
    {
        assert(fragment_views(fragments@)[i as int] == fragments@[i as int]@);
        match &fragments[i] {
            Fragment::Text { text } => {
                done.append(text.as_str());
            },
            Fragment::Interpolation { expression } => {
                let mut stack: Vec<usize> = Vec::new();
                match evaluate_expression(env, expression, &mut stack, values, used) {
                    Evaluation::Value { text } => {
                        done.append(text.as_str());
                    },
                    other => {
                        return other;
                    },
                }
            },
        }
        i += 1;
    }
    Evaluation::Value { text: done }
}

/// What one invocation of the tool knows about the variables: the values
/// given on the command line, the values computed so far, and the outputs of
/// the backticks that were run for the evaluation that is under way.
#[derive(Debug, PartialEq, Eq)]
pub struct EvaluationContext {
    pub overrides: Vec<Binding>,
    pub values: Vec<Binding>,
    pub captured: Vec<String>,
}

pub struct ContextView {
    pub overrides: Seq<BindingView>,
    pub values: Seq<BindingView>,
    pub captured: Seq<Seq<char>>,
}

impl View for EvaluationContext {
    type V = ContextView;

    open spec fn view(&self) -> ContextView {
        ContextView {
            overrides: binding_views(self.overrides@),
            values: binding_views(self.values@),
            captured: text_views(self.captured@),
        }
    }
}

/// The scope in which `context` evaluates, with `parameters` in scope.
pub open spec fn scope_of(
    assignments: Seq<AssignmentView>,
    parameters: Seq<BindingView>,
    context: ContextView,
) -> Scope {
    Scope { assignments, overrides: context.overrides, parameters, captured: context.captured }
}

/// What an evaluation starts with in `context`.
pub open spec fn carried_of(context: ContextView) -> Carried {
    Carried { values: context.values, used: 0 }
}

/// The context after an evaluation with the result `result`: a value is
/// final, so the variables that were computed for it are kept and the
/// captured outputs are spent; any other result leaves the context as it was.
pub open spec fn settled(context: ContextView, result: Evaluated) -> ContextView {
    match result {
        Evaluated::Value { carried, .. } => ContextView {
            values: carried.values,
            captured: Seq::empty(),
            ..context
        },
        _ => context,
    }
}

/// Whether the evaluator's answer `r` is the result `result`.
pub open spec fn answers(r: Evaluation, result: Evaluated) -> bool {
    match result {
        Evaluated::Value { text, .. } => r matches Evaluation::Value { text: given } && given@ == text,
        Evaluated::Pending { command, span } => r matches Evaluation::Pending {
            command: given,
            span: place,
        } && given@ == command && place == span,
        Evaluated::Failed { error } => r matches Evaluation::Failed { error: given } && given@ == error,
    }
}

impl EvaluationContext {
    /// The context at the start of an invocation with the overrides `overrides`.
    pub fn new(overrides: Vec<Binding>) -> (context: EvaluationContext)
        ensures
            context@ == (ContextView {
                overrides: binding_views(overrides@),
                values: Seq::empty(),
                captured: Seq::empty(),
            }),
    {
        let context = EvaluationContext { overrides, values: Vec::new(), captured: Vec::new() };
        assert(binding_views(context.values@) =~= Seq::empty());
        assert(text_views(context.captured@) =~= Seq::empty());
        context
    }

    /// Notes what a backtick printed, for the evaluation that asked for it:
    /// `output` without the newline at its end, if it ends in one.
    pub fn capture(&mut self, output: &str)
        ensures
            final(self)@ == (ContextView {
                captured: old(self)@.captured.push(without_newline(output@)),
                ..old(self)@
            }),
    {
        let ghost before = text_views(self.captured@);
        let text = trim_newline(output);
        self.captured.push(text);
        assert(text_views(self.captured@) =~= before.push(without_newline(output@)));
    }

    fn settle(&mut self, values: Vec<Binding>)
        ensures
            final(self)@ == (ContextView {
                values: binding_views(values@),
                captured: Seq::empty(),
                ..old(self)@
            }),
    {
        self.values = values;
        self.captured = Vec::new();
        assert(text_views(self.captured@) =~= Seq::empty());
    }
}

/// Evaluates `expression` with the parameters `parameters` in scope.
///
/// A value is final: the context then keeps the variables that were computed
/// on the way and forgets the captured outputs. Where a backtick has to be run
/// first, the context is unchanged, and the evaluation is to be asked for
/// again after `capture` was given the output.
pub fn evaluate(
    expression: &Expression,
    assignments: &Vec<Assignment>,
    parameters: &Vec<Binding>,
    context: &mut EvaluationContext,
) -> (r: Evaluation)
    ensures
        answers(
            r,
            expression_value(
                scope_of(assignment_views(assignments@), binding_views(parameters@), old(context)@),
                expression@,
                Seq::empty(),
                carried_of(old(context)@),
            ),
        ),
        final(context)@ == settled(
            old(context)@,
            expression_value(
                scope_of(assignment_views(assignments@), binding_views(parameters@), old(context)@),
                expression@,
                Seq::empty(),
                carried_of(old(context)@),
            ),
        ),
{
    let mut values = copy_bindings(&context.values);
    let mut used: usize = 0;
    let mut stack: Vec<usize> = Vec::new();
    let env = Environment {
        assignments,
        overrides: &context.overrides,
        parameters,
        captured: &context.captured,
    };
    let r = evaluate_expression(&env, expression, &mut stack, &mut values, &mut used);
    if let Evaluation::Value { .. } = &r {
        context.settle(values);
    }
    r
}

/// The value of the variable `name`, asked for at `span`.
///
/// A value given on the command line is returned as it is, and the
/// assignment to the variable is not evaluated; a value that is known is not
/// computed again.
pub fn value_of(name: &String, span: Span, assignments: &Vec<Assignment>, context: &mut EvaluationContext) -> (r:
    Evaluation)
    ensures
        answers(
            r,
            variable_value(
                scope_of(assignment_views(assignments@), Seq::empty(), old(context)@),
                name@,
                span,
                Seq::empty(),
                carried_of(old(context)@),
            ),
        ),
        final(context)@ == settled(
            old(context)@,
            variable_value(
                scope_of(assignment_views(assignments@), Seq::empty(), old(context)@),
                name@,
                span,
                Seq::empty(),
                carried_of(old(context)@),
            ),
        ),
{
    let mut values = copy_bindings(&context.values);
    let mut used: usize = 0;
    let mut stack: Vec<usize> = Vec::new();
    let none: Vec<Binding> = Vec::new();
    assert(binding_views(none@) =~= Seq::empty());
    let env = Environment {
        assignments,
        overrides: &context.overrides,
        parameters: &none,
        captured: &context.captured,
    };
    let r = evaluate_variable(&env, name, span, &mut stack, &mut values, &mut used);
    if let Evaluation::Value { .. } = &r {
        context.settle(values);
    }
    r
}

/// The text of the body line made of `fragments`, with the parameters
/// `parameters` in scope.
pub fn evaluate_line(
    fragments: &Vec<Fragment>,
    assignments: &Vec<Assignment>,
    parameters: &Vec<Binding>,
    context: &mut EvaluationContext,
) -> (r: Evaluation)
    ensures
        answers(
            r,
            fragments_value(
                scope_of(assignment_views(assignments@), binding_views(parameters@), old(context)@),
                fragment_views(fragments@),
                0,
                Seq::empty(),
                carried_of(old(context)@),
            ),
        ),
        final(context)@ == settled(
            old(context)@,
            fragments_value(
                scope_of(assignment_views(assignments@), binding_views(parameters@), old(context)@),
                fragment_views(fragments@),
                0,
                Seq::empty(),
                carried_of(old(context)@),
            ),
        ),
{
    let mut values = copy_bindings(&context.values);
    let mut used: usize = 0;
    let env = Environment {
        assignments,
        overrides: &context.overrides,
        parameters,
        captured: &context.captured,
    };
    let r = evaluate_fragments(&env, fragments, &mut values, &mut used);
    if let Evaluation::Value { .. } = &r {
        context.settle(values);
    }
    r
}

/// The value of a variable that is given on the command line is the value
/// given there, whatever the source assigns to it: the assignment is not
/// looked at, no backtick is asked for and no captured output is used.
pub proof fn lemma_override_is_final(
    scope: Scope,
    name: Seq<char>,
    span: Span,
    stack: Seq<usize>,
    carried: Carried,
    text: Seq<char>,
)
    requires
        nesting_ok(scope.assignments, stack),
        bound(scope.parameters, name) is None,
        bound(scope.overrides, name) == Some(text),
    ensures
        variable_value(scope, name, span, stack, carried) == (Evaluated::Value { text, carried }),
        forall|assignments: Seq<AssignmentView>|
            nesting_ok(assignments, stack) ==> #[trigger] variable_value(
                Scope { assignments, ..scope },
                name,
                span,
                stack,
                carried,
            ) == (Evaluated::Value { text, carried }),
{
}

/// The value of a concatenation is the value of its left side followed by
/// the value of its right side, every character kept.
pub proof fn lemma_concatenation_joins(
    scope: Scope,
    left: ExpressionView,
    right: ExpressionView,
    stack: Seq<usize>,
    carried: Carried,
)
    requires
        nesting_ok(scope.assignments, stack),
    ensures
        expression_value(
            scope,
            ExpressionView::Concatenation { left: Box::new(left), right: Box::new(right) },
            stack,
            carried,
        ) == (match expression_value(scope, left, stack, carried) {
            Evaluated::Value { text: first, carried: between } => match expression_value(
                scope,
                right,
                stack,
                between,
            ) {
                Evaluated::Value { text: second, carried: after } => Evaluated::Value {
                    text: first + second,
                    carried: after,
                },
                other => other,
            },
            other => other,
        }),
{
}

/// Of the newlines at the end of an output exactly one is removed, and an
/// output that ends in none is kept as it is.
pub proof fn lemma_one_newline_trimmed(output: Seq<char>)
    ensures
        without_newline(output.push('\n')) == output,
        output.len() == 0 || output.last() != '\n' ==> without_newline(output) == output,
        without_newline(output).len() + 1 >= output.len(),
        without_newline(output).is_prefix_of(output),
{
    assert(output.push('\n').drop_last() =~= output);
}


/// An evaluation that fails ends the run with the status 255.
pub proof fn lemma_variable_failure_status(
    scope: Scope,
    name: Seq<char>,
    span: Span,
    stack: Seq<usize>,
    carried: Carried,
)
    requires
        nesting_ok(scope.assignments, stack),
    ensures
        variable_value(scope, name, span, stack, carried) matches Evaluated::Failed { error } ==> error.code
            == FAILURE,
    decreases scope.assignments.len() - stack.len(), 0int, (ExpressionView::Variable { name, span }),
{
    if bound(scope.parameters, name) is None && bound(scope.overrides, name) is None && bound(
        carried.values,
        name,
    ) is None {
        if let Some(i) = assignment_index(scope.assignments, name) {
            if !stack.contains(i as usize) {
                lemma_assignment_index(scope.assignments, name, 0);
                let longer = stack.push(i as usize);
                assert(longer.no_duplicates());
                lemma_distinct_bounded(longer, scope.assignments.len());
                lemma_expression_failure_status(scope, scope.assignments[i].expression, longer, carried);
            }
        }
    }
}

/// An evaluation that fails ends the run with the status 255.
pub proof fn lemma_expression_failure_status(scope: Scope, e: ExpressionView, stack: Seq<usize>, carried: Carried)
    requires
        nesting_ok(scope.assignments, stack),
    ensures
        expression_value(scope, e, stack, carried) matches Evaluated::Failed { error } ==> error.code
            == FAILURE,
    decreases scope.assignments.len() - stack.len(), 1int, e,
{
    match e {
        ExpressionView::Variable { name, span } => {
            lemma_variable_failure_status(scope, name, span, stack, carried);
        },
        ExpressionView::Concatenation { left, right } => {
            lemma_expression_failure_status(scope, *left, stack, carried);
            if let Evaluated::Value { carried: between, .. } = expression_value(scope, *left, stack, carried) {
                lemma_expression_failure_status(scope, *right, stack, between);
            }
        },
        _ => {},
    }
}

/// An evaluation of a line that fails ends the run with the status 255.
pub proof fn lemma_fragments_failure_status(
    scope: Scope,
    fragments: Seq<FragmentView>,
    i: int,
    done: Seq<char>,
    carried: Carried,
)
    ensures
        fragments_value(scope, fragments, i, done, carried) matches Evaluated::Failed { error } ==> error.code
            == FAILURE,
    decreases fragments.len() - i,
{
    if 0 <= i < fragments.len() {
        match fragments[i] {
            FragmentView::Text { text } => {
                lemma_fragments_failure_status(scope, fragments, i + 1, done + text, carried);
            },
            FragmentView::Interpolation { expression } => {
                lemma_expression_failure_status(scope, expression, Seq::empty(), carried);
                if let Evaluated::Value { text, carried: after } = expression_value(
                    scope,
                    expression,
                    Seq::empty(),
                    carried,
                ) {
                    lemma_fragments_failure_status(scope, fragments, i + 1, done + text, after);
                }
            },
        }
    }
}

} // verus!
