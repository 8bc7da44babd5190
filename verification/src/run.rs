use vstd::prelude::*;
use crate::ast::JustfileView;
use crate::diagnostic::{Diagnostic, DiagnosticView};
use crate::evaluator::{binding_views, Binding, BindingView};
use crate::executor::{initial, Config, Runner, RunnerView};
use crate::invocation::{
    check_overrides, leading_overrides, overrides_among, overrides_refused, requests, requests_of,
    take_overrides,
};
use crate::lexer::{lex, tokenize};
use crate::parser::{parse, parsed};
use crate::resolver::{plan, planned, text_views};
use crate::variables::{check_variables, first_undefined, undefined_variable};

verus! {

/// The overrides of a run: those given by themselves, then those that stand
/// at the start of the arguments.
pub open spec fn all_overrides(overrides: Seq<BindingView>, arguments: Seq<Seq<char>>) -> Seq<BindingView> {
    overrides + overrides_among(arguments, leading_overrides(arguments, 0))
}

/// The run that is to be made of the parsed source `file`.
pub open spec fn prepared_file(
    file: JustfileView,
    overrides: Seq<BindingView>,
    arguments: Seq<Seq<char>>,
    config: Config,
) -> Result<RunnerView, DiagnosticView> {
    match first_undefined(file) {
        Some(reference) => Err(undefined_variable(reference)),
        None => match overrides_refused(file, all_overrides(overrides, arguments)) {
            Some(error) => Err(error),
            None => match requests_of(file, arguments, leading_overrides(arguments, 0)) {
                Err(error) => Err(error),
                Ok(requested) => match planned(file, requested) {
                    Err(error) => Err(error),
                    Ok(steps) => Ok(initial(file, steps, all_overrides(overrides, arguments), config)),
                },
            },
        },
    }
}

/// The run that is to be made of the source text `source` for the
/// arguments `arguments`, or the first failure on the way to it: of reading
/// the text, of a name that stands for nothing, of an override that the
/// source has no variable for, of a request that cannot be met, of the plan.
pub open spec fn prepared(
    source: Seq<char>,
    overrides: Seq<BindingView>,
    arguments: Seq<Seq<char>>,
    config: Config,
) -> Result<RunnerView, DiagnosticView> {
    match lex(source) {
        Err(error) => Err(error),
        Ok(tokens) => match parsed(tokens) {
            Err(error) => Err(error),
            Ok(file) => prepared_file(file, overrides, arguments, config),
        },
    }
}

/// Prepares the run of a source text.
///
/// `overrides` are values for variables that were given by themselves.
/// Arguments of the form `name=value` at the start of `arguments` are
/// overrides too; the other arguments say which recipes to run. Nothing is
/// run before the whole source is read and the plan is made.
pub fn prepare(source: &str, overrides: Vec<Binding>, arguments: &Vec<String>, config: Config) -> (r: Result<
    Runner,
    Diagnostic,
>)
    ensures
        match r {
            Ok(runner) => prepared(source@, binding_views(overrides@), text_views(arguments@), config) == Ok::<
                RunnerView,
                DiagnosticView,
            >(runner@),
            Err(error) => prepared(source@, binding_views(overrides@), text_views(arguments@), config)
                == Err::<RunnerView, DiagnosticView>(error@),
        },
{
    let tokens = match tokenize(source) {
        Ok(tokens) => tokens,
        Err(error) => {
            return Err(error);
        },
    };
    let justfile = match parse(&tokens) {
        Ok(justfile) => justfile,
        Err(error) => {
            return Err(error);
        },
    };
    if let Err(error) = check_variables(&justfile) {
        return Err(error);
    }
    let mut all = overrides;
    let taken = take_overrides(arguments, &mut all);
    if let Err(error) = check_overrides(&justfile, &all) {
        return Err(error);
    }
    let requested = match requests(&justfile, arguments, taken) {
        Ok(requested) => requested,
        Err(error) => {
            return Err(error);
        },
    };
    let steps = match plan(&justfile, &requested) {
        Ok(steps) => steps,
        Err(error) => {
            return Err(error);
        },
    };
    Ok(Runner::new(justfile, steps, all, config))
}

} // verus!
