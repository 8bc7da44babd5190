use vstd::prelude::*;
use vstd::string::StringExecFns;
use crate::ast::{
    assignment_index, find_assignment, find_recipe, recipe_index, Justfile, JustfileView,
};
use crate::diagnostic::{failure, Diagnostic, DiagnosticView};
use crate::evaluator::{binding_views, Binding, BindingView};
use crate::lexer::find_char;
use crate::resolver::{
    invocation_views, list_names, listed, text_views, InvocationView, RecipeInvocation,
};
use crate::text::{chars_of, string_of_range};

verus! {

/// The override that an argument of the form `name=value` stands for: the
/// name is what stands before the first `=` and is not empty, the value is
/// all that follows it. Any other argument stands for none.
pub open spec fn override_of(argument: Seq<char>) -> Option<BindingView> {
    let at = find_char(argument, 0, '=');
    if 0 < at < argument.len() {
        Some(BindingView { name: argument.subrange(0, at), value: argument.subrange(at + 1, argument.len() as int) })
    } else {
        None
    }
}

/// The view of a binding that may be missing.
pub open spec fn optional_binding(b: Option<Binding>) -> Option<BindingView> {
    match b {
        Some(b) => Some(b@),
        None => None,
    }
}

/// Reads an argument of the form `name=value`.
pub fn split_override(argument: &str) -> (found: Option<Binding>)
    ensures
        optional_binding(found) == override_of(argument@),
{
    let chars = chars_of(argument);
    let mut at: usize = 0;
    while at < chars.len() && chars[at] != '='
        invariant
            at <= chars.len(),
            find_char(chars@, at as int, '=') == find_char(chars@, 0, '='),
        decreases chars.len() - at,
    {
        at += 1;
    }
    if 0 < at && at < chars.len() {
        Some(
            Binding {
                name: string_of_range(&chars, 0, at),
                value: string_of_range(&chars, at + 1, chars.len()),
            },
        )
    } else {
        None
    }
}

/// The number of arguments at the start of `arguments`, from index `i` on,
/// that are overrides.
pub open spec fn leading_overrides(arguments: Seq<Seq<char>>, i: int) -> int
    decreases arguments.len() - i,
{
    if 0 <= i < arguments.len() && override_of(arguments[i]) is Some {
        leading_overrides(arguments, i + 1)
    } else {
        i
    }
}

/// The overrides that the first `n` of `arguments` stand for.
pub open spec fn overrides_among(arguments: Seq<Seq<char>>, n: int) -> Seq<BindingView> {
    Seq::new(n as nat, |j: int| override_of(arguments[j])->0)
}

/// Takes the overrides that stand at the start of the arguments off them:
/// they are added to `overrides`, and the result is the number of arguments
/// that were taken.
pub fn take_overrides(arguments: &Vec<String>, overrides: &mut Vec<Binding>) -> (taken: usize)
    ensures
        taken == leading_overrides(text_views(arguments@), 0),
        taken <= arguments.len(),
        binding_views(final(overrides)@) == binding_views(old(overrides)@) + overrides_among(
            text_views(arguments@),
            taken as int,
        ),
{
    let ghost before = binding_views(overrides@);
    let mut i: usize = 0;
    assert(binding_views(overrides@) =~= before + overrides_among(text_views(arguments@), 0));
    while i < arguments.len()
        invariant
            i <= arguments.len(),
            leading_overrides(text_views(arguments@), i as int) == leading_overrides(text_views(arguments@), 0),
            before == binding_views(old(overrides)@),
            binding_views(overrides@) == before + overrides_among(text_views(arguments@), i as int),
        decreases arguments.len() - i,
    {
        assert(text_views(arguments@)[i as int] == arguments@[i as int]@);
        match split_override(arguments[i].as_str()) {
            Some(binding) => {
                let ghost so_far = binding_views(overrides@);
                overrides.push(binding);
                assert(binding_views(overrides@) =~= so_far.push(binding@));
                i += 1;
                assert(binding_views(overrides@) =~= before + overrides_among(
                    text_views(arguments@),
                    i as int,
                ));
            },
            None => {
                return i;
            },
        }
    }
    i
}

/// The requests that the arguments `arguments` from index `from` on stand
/// for. Without such arguments the first recipe of the source is requested.
/// A first argument that names a recipe with parameters takes all that
/// follow as its arguments; otherwise every argument is the name of a recipe
/// to run, without arguments.
pub open spec fn requests_of(file: JustfileView, arguments: Seq<Seq<char>>, from: int) -> Result<
    Seq<InvocationView>,
    DiagnosticView,
> {
    if !(0 <= from < arguments.len()) {
        if file.recipes.len() == 0 {
            Err(failure("Justfile contains no recipes."@))
        } else {
            Ok(seq![InvocationView { name: file.recipes[0].name, arguments: Seq::empty() }])
        }
    } else {
        match recipe_index(file.recipes, arguments[from]) {
            Some(i) if file.recipes[i].parameters.len() > 0 => Ok(
                seq![
                    InvocationView {
                        name: arguments[from],
                        arguments: arguments.subrange(from + 1, arguments.len() as int),
                    },
                ],
            ),
            _ => Ok(
                Seq::new(
                    (arguments.len() - from) as nat,
                    |j: int| InvocationView { name: arguments[from + j], arguments: Seq::empty() },
                ),
            ),
        }
    }
}

/// Reads the arguments from index `from` on as requests.
pub fn requests(justfile: &Justfile, arguments: &Vec<String>, from: usize) -> (r: Result<
    Vec<RecipeInvocation>,
    Diagnostic,
>)
    ensures
        match r {
            Ok(requested) => requests_of(justfile@, text_views(arguments@), from as int) == Ok::<
                Seq<InvocationView>,
                DiagnosticView,
            >(invocation_views(requested@)),
            Err(error) => requests_of(justfile@, text_views(arguments@), from as int) == Err::<
                Seq<InvocationView>,
                DiagnosticView,
            >(error@),
        },
{
    let ghost given = text_views(arguments@);
    let mut requested: Vec<RecipeInvocation> = Vec::new();
    if from >= arguments.len() {
        if justfile.recipes.len() == 0 {
            return Err(Diagnostic::plain(String::from_str("Justfile contains no recipes.")));
        }
        assert(justfile@.recipes[0] == justfile.recipes@[0]@);
        let none: Vec<String> = Vec::new();
        assert(text_views(none@) =~= Seq::empty());
        let request = RecipeInvocation { name: justfile.recipes[0].name.clone(), arguments: none };
        requested.push(request);
        assert(invocation_views(requested@) =~= seq![request@]);
        return Ok(requested);
    }
    assert(given[from as int] == arguments@[from as int]@);
    if let Some(i) = find_recipe(&justfile.recipes, &arguments[from]) {
        assert(justfile@.recipes[i as int] == justfile.recipes@[i as int]@);
        assert(justfile@.recipes[i as int].parameters.len() == justfile.recipes@[i as int].parameters@.len());
        if justfile.recipes[i].parameters.len() > 0 {
            let mut rest: Vec<String> = Vec::new();
            let mut j: usize = from + 1;
            while j < arguments.len()
                invariant
                    from + 1 <= j <= arguments.len(),
                    rest.len() == j - (from + 1),
                    forall|t: int| 0 <= t < rest.len() ==> (#[trigger] rest@[t])@ == arguments@[from + 1 + t]@,
                decreases arguments.len() - j,
            {
                rest.push(arguments[j].clone());
                j += 1;
            }
            assert(text_views(rest@) =~= given.subrange(from + 1, given.len() as int));
            let request = RecipeInvocation { name: arguments[from].clone(), arguments: rest };
            requested.push(request);
            assert(invocation_views(requested@) =~= seq![request@]);
            return Ok(requested);
        }
    }
    let mut j: usize = from;
    while j < arguments.len()
        invariant
            from <= j <= arguments.len(),
            requested.len() == j - from,
            forall|t: int|
                0 <= t < requested.len() ==> (#[trigger] requested@[t])@ == (InvocationView {
                    name: arguments@[from + t]@,
                    arguments: Seq::empty(),
                }),
        decreases arguments.len() - j,
    {
        let none: Vec<String> = Vec::new();
        assert(text_views(none@) =~= Seq::empty());
        requested.push(RecipeInvocation { name: arguments[j].clone(), arguments: none });
        j += 1;
    }
    assert(invocation_views(requested@) =~= Seq::new(
        (given.len() - from) as nat,
        |j: int| InvocationView { name: given[from + j], arguments: Seq::empty() },
    ));
    Ok(requested)
}

/// Whether the text `a` stands before the text `b` in the order of a
/// dictionary, the characters compared by their code points from index `i`
/// on.
pub open spec fn text_before(a: Seq<char>, b: Seq<char>, i: int) -> bool
    decreases b.len() - i,
{
    if !(0 <= i < b.len()) {
        false
    } else if i >= a.len() {
        true
    } else if a[i] < b[i] {
        true
    } else if a[i] > b[i] {
        false
    } else {
        text_before(a, b, i + 1)
    }
}

/// `names` with `name` put in before the first of its members, from index
/// `i` on, that `name` stands before; a name that `names` holds there is not
/// put in again.
pub open spec fn inserted(names: Seq<Seq<char>>, name: Seq<char>, i: int) -> Seq<Seq<char>>
    decreases names.len() - i,
{
    if !(0 <= i < names.len()) {
        names.push(name)
    } else if names[i] == name {
        names
    } else if text_before(name, names[i], 0) {
        names.insert(i, name)
    } else {
        inserted(names, name, i + 1)
    }
}

/// The names of the overrides from index `i` on that no assignment of the
/// source has, put in order into `done`.
pub open spec fn unknown_overrides(
    file: JustfileView,
    overrides: Seq<BindingView>,
    i: int,
    done: Seq<Seq<char>>,
) -> Seq<Seq<char>>
    decreases overrides.len() - i,
{
    if !(0 <= i < overrides.len()) {
        done
    } else if assignment_index(file.assignments, overrides[i].name) is None {
        unknown_overrides(file, overrides, i + 1, inserted(done, overrides[i].name, 0))
    } else {
        unknown_overrides(file, overrides, i + 1, done)
    }
}

/// The message for overrides of variables that the source does not have.
pub open spec fn unknown_overrides_message(names: Seq<Seq<char>>) -> Seq<char> {
    (if names.len() == 1 {
        "Variable "@
    } else {
        "Variables "@
    }) + listed(names, "and"@, 0, Seq::empty()) + " overridden on the command line but not present in justfile"@
}

/// The failure for overrides of variables that the source does not have, if
/// there are any: it names them all, in the order of a dictionary.
pub open spec fn overrides_refused(file: JustfileView, overrides: Seq<BindingView>) -> Option<DiagnosticView> {
    let names = unknown_overrides(file, overrides, 0, Seq::empty());
    if names.len() > 0 {
        Some(failure(unknown_overrides_message(names)))
    } else {
        None
    }
}

/// Whether the text `a` stands before the text `b` in the order of a dictionary.
pub fn before(a: &Vec<char>, b: &Vec<char>) -> (r: bool)
    ensures
        r == text_before(a@, b@, 0),
{
    let mut i: usize = 0;
    loop
        invariant
            text_before(a@, b@, i as int) == text_before(a@, b@, 0),
        decreases b.len() - i,
    {
        if i >= b.len() {
            return false;
        } else if i >= a.len() {
            return true;
        } else if a[i] < b[i] {
            return true;
        } else if a[i] > b[i] {
            return false;
        }
        i += 1;
    }
}

/// Puts `name` into `names`, which are in order, at its place; a name that
/// `names` holds is not put in again.
pub fn insert_name(names: &mut Vec<String>, name: &String)
    ensures
        text_views(final(names)@) == inserted(text_views(old(names)@), name@, 0),
{
    let ghost start = text_views(names@);
    let chars = chars_of(name.as_str());
    let mut i: usize = 0;
    while i < names.len()
        invariant
            i <= names.len(),
            chars@ == name@,
            names@ == old(names)@,
            start == text_views(names@),
            inserted(start, name@, i as int) == inserted(start, name@, 0),
        decreases names.len() - i,
    {
        assert(start[i as int] == names@[i as int]@);
        if names[i] == *name {
            return ;
        }
        let other = chars_of(names[i].as_str());
        if before(&chars, &other) {
            names.insert(i, name.clone());
            assert(text_views(names@) =~= start.insert(i as int, name@));
            return ;
        }
        i += 1;
    }
    names.push(name.clone());
    assert(text_views(names@) =~= start.push(name@));
}

/// Refuses overrides of variables that the source does not have.
pub fn check_overrides(justfile: &Justfile, overrides: &Vec<Binding>) -> (r: Result<(), Diagnostic>)
    ensures
        crate::variables::found(r) == overrides_refused(justfile@, binding_views(overrides@)),
{
    let mut names: Vec<String> = Vec::new();
    assert(text_views(names@) =~= Seq::empty());
    let mut i: usize = 0;
    while i < overrides.len()
        invariant
            i <= overrides.len(),
            unknown_overrides(justfile@, binding_views(overrides@), i as int, text_views(names@))
                == unknown_overrides(justfile@, binding_views(overrides@), 0, Seq::empty()),
        decreases overrides.len() - i,
    {
        assert(binding_views(overrides@)[i as int] == overrides@[i as int]@);
        if find_assignment(&justfile.assignments, &overrides[i].name).is_none() {
            insert_name(&mut names, &overrides[i].name);
        }
        i += 1;
    }
    if names.len() > 0 {
        let mut message = if names.len() == 1 {
            String::from_str("Variable ")
        } else {
            String::from_str("Variables ")
        };
        message.append(list_names(&names, "and").as_str());
        message.append(" overridden on the command line but not present in justfile");
        Err(Diagnostic::plain(message))
    } else {
        Ok(())
    }
}

/// Whether two texts hold the same characters before index `i`.
pub open spec fn agree(a: Seq<char>, b: Seq<char>, i: int) -> bool {
    i <= a.len() && i <= b.len() && forall|k: int| 0 <= k < i ==> a[k] == b[k]
}

/// Whether each of `names` stands before those after it.
pub open spec fn in_order(names: Seq<Seq<char>>) -> bool {
    forall|i: int, j: int| 0 <= i < j < names.len() ==> text_before(#[trigger] names[i], #[trigger] names[j], 0)
}

/// Of two texts that differ, one stands before the other.
pub proof fn lemma_text_order_total(a: Seq<char>, b: Seq<char>, i: int)
    requires
        0 <= i,
        agree(a, b, i),
    ensures
        text_before(a, b, i) || text_before(b, a, i) || a == b,
    decreases a.len() - i,
{
    if i < a.len() && i < b.len() {
        if a[i] == b[i] {
            lemma_text_order_total(a, b, i + 1);
        }
    } else if i >= a.len() && i >= b.len() {
        assert(a =~= b);
    }
}

/// A text that stands before a second, which stands before a third, stands
/// before the third.
pub proof fn lemma_text_order_transitive(a: Seq<char>, b: Seq<char>, c: Seq<char>, i: int)
    requires
        0 <= i,
        text_before(a, b, i),
        text_before(b, c, i),
    ensures
        text_before(a, c, i),
    decreases c.len() - i,
{
    if i < a.len() && i < b.len() && i < c.len() && a[i] == b[i] && b[i] == c[i] {
        lemma_text_order_transitive(a, b, c, i + 1);
    }
}

/// A name is put into names that are in order so that they stay in order.
pub proof fn lemma_inserted_in_order(names: Seq<Seq<char>>, name: Seq<char>, i: int)
    requires
        0 <= i,
        in_order(names),
        forall|k: int| 0 <= k < i && k < names.len() ==> text_before(#[trigger] names[k], name, 0),
    ensures
        in_order(inserted(names, name, i)),
    decreases names.len() - i,
{
    if i >= names.len() {
        let longer = names.push(name);
        assert forall|a: int, b: int| 0 <= a < b < longer.len() implies text_before(
            #[trigger] longer[a],
            #[trigger] longer[b],
            0,
        ) by {
            if b < names.len() {
                assert(text_before(names[a], names[b], 0));
            } else {
                assert(text_before(names[a], name, 0));
            }
        }
    } else if names[i] == name {
    } else if text_before(name, names[i], 0) {
        let longer = names.insert(i, name);
        assert forall|a: int, b: int| 0 <= a < b < longer.len() implies text_before(
            #[trigger] longer[a],
            #[trigger] longer[b],
            0,
        ) by {
            if b < i {
                assert(text_before(names[a], names[b], 0));
            } else if b == i {
                assert(text_before(names[a], name, 0));
            } else if a < i {
                assert(text_before(names[a], names[b - 1], 0));
            } else if a == i {
                if b - 1 > i {
                    assert(text_before(names[i], names[b - 1], 0));
                    lemma_text_order_transitive(name, names[i], names[b - 1], 0);
                }
            } else {
                assert(text_before(names[a - 1], names[b - 1], 0));
            }
        }
    } else {
        lemma_text_order_total(name, names[i], 0);
        lemma_inserted_in_order(names, name, i + 1);
    }
}

/// The names of the overrides that the source has no variable for are
/// listed in the order of a dictionary.
pub proof fn lemma_unknown_overrides_in_order(
    file: JustfileView,
    overrides: Seq<BindingView>,
    i: int,
    done: Seq<Seq<char>>,
)
    requires
        in_order(done),
    ensures
        in_order(unknown_overrides(file, overrides, i, done)),
    decreases overrides.len() - i,
{
    if 0 <= i < overrides.len() {
        if assignment_index(file.assignments, overrides[i].name) is None {
            lemma_inserted_in_order(done, overrides[i].name, 0);
            lemma_unknown_overrides_in_order(file, overrides, i + 1, inserted(done, overrides[i].name, 0));
        } else {
            lemma_unknown_overrides_in_order(file, overrides, i + 1, done);
        }
    }
}

} // verus!
