use vstd::prelude::*;
use crate::ast::{recipe_views, Recipe, RecipeView};
use crate::ast::optional_text;
use crate::invocation::{before, text_before};
use crate::text::chars_of;

verus! {

/// The least of three numbers.
pub open spec fn least_of(a: nat, b: nat, c: nat) -> nat {
    if a <= b && a <= c {
        a
    } else if b <= c {
        b
    } else {
        c
    }
}

/// The number of characters that have to be put in, taken out or replaced
/// to make the text `a` into the text `b`.
pub open spec fn edit_distance(a: Seq<char>, b: Seq<char>) -> nat
    decreases a.len() + b.len(),
{
    if a.len() == 0 {
        b.len()
    } else if b.len() == 0 {
        a.len()
    } else {
        least_of(
            edit_distance(a.drop_last(), b) + 1,
            edit_distance(a, b.drop_last()) + 1,
            edit_distance(a.drop_last(), b.drop_last()) + if a.last() == b.last() {
                0nat
            } else {
                1nat
            },
        )
    }
}

/// No text is further from another than both are long.
pub proof fn lemma_edit_distance_bounded(a: Seq<char>, b: Seq<char>)
    ensures
        edit_distance(a, b) <= a.len() + b.len(),
    decreases a.len() + b.len(),
{
    if a.len() > 0 && b.len() > 0 {
        lemma_edit_distance_bounded(a.drop_last(), b);
        lemma_edit_distance_bounded(a, b.drop_last());
        lemma_edit_distance_bounded(a.drop_last(), b.drop_last());
    }
}

/// The distance between two texts.
pub fn distance(a: &Vec<char>, b: &Vec<char>) -> (d: u128)
    ensures
        d == edit_distance(a@, b@),
{
    let mut row: Vec<u128> = Vec::new();
    row.push(0);
    let mut j: usize = 0;
    while j < b.len()
        invariant
            j <= b.len(),
            row@.len() == j + 1,
            forall|t: int| 0 <= t <= j ==> #[trigger] row@[t] == edit_distance(a@.take(0), b@.take(t)),
        decreases b.len() - j,
    {
        row.push(j as u128 + 1);
        j += 1;
    }
    let mut i: usize = 0;
    while i < a.len()
        invariant
            i <= a.len(),
            row@.len() == b.len() + 1,
            forall|t: int| 0 <= t <= b.len() ==> #[trigger] row@[t] == edit_distance(a@.take(i as int), b@.take(t)),
        decreases a.len() - i,
    {
        let ghost above = row@;
        let mut next: Vec<u128> = Vec::new();
        next.push(i as u128 + 1);
        let mut k: usize = 0;
        while k < b.len()
            invariant
                i < a.len(),
                k <= b.len(),
                row@.len() == b.len() + 1,
                next@.len() == k + 1,
                forall|t: int|
                    0 <= t <= b.len() ==> #[trigger] row@[t] == edit_distance(a@.take(i as int), b@.take(t)),
                forall|t: int| 0 <= t <= k ==> #[trigger] next@[t] == edit_distance(a@.take(i + 1), b@.take(t)),
            decreases b.len() - k,
        {
            proof {
                let left = a@.take(i + 1);
                let top = b@.take(k + 1);
                assert(left.drop_last() =~= a@.take(i as int));
                assert(top.drop_last() =~= b@.take(k as int));
                assert(left.last() == a@[i as int]);
                assert(top.last() == b@[k as int]);
                lemma_edit_distance_bounded(a@.take(i as int), top);
                lemma_edit_distance_bounded(left, b@.take(k as int));
                lemma_edit_distance_bounded(a@.take(i as int), b@.take(k as int));
            }
            let cost: u128 = if a[i] == b[k] {
                0
            } else {
                1
            };
            let remove = row[k + 1] + 1;
            let insert = next[k] + 1;
            let replace = row[k] + cost;
            let best = if remove <= insert && remove <= replace {
                remove
            } else if insert <= replace {
                insert
            } else {
                replace
            };
            next.push(best);
            k += 1;
        }
        row = next;
        i += 1;
    }
    assert(a@.take(a.len() as int) =~= a@);
    assert(b@.take(b.len() as int) =~= b@);
    row[b.len()]
}

/// A name that may have been meant, with its distance from what was given.
pub struct Candidate {
    pub name: Seq<char>,
    pub distance: nat,
}

/// Whether the recipe name `name` at the distance `distance` is a better
/// guess than `best`: it is nearer, or as near and before it in the order of
/// a dictionary.
pub open spec fn improves(name: Seq<char>, distance: nat, best: Option<Candidate>) -> bool {
    distance < 3 && match best {
        None => true,
        Some(best) => distance < best.distance || (distance == best.distance && text_before(name, best.name, 0)),
    }
}

/// The best guess among the names of the recipes from index `i` on, after
/// the best guess `best` among those before.
pub open spec fn closest(recipes: Seq<RecipeView>, given: Seq<char>, i: int, best: Option<Candidate>) -> Option<
    Candidate,
>
    decreases recipes.len() - i,
{
    if !(0 <= i < recipes.len()) {
        best
    } else if improves(recipes[i].name, edit_distance(recipes[i].name, given), best) {
        closest(
            recipes,
            given,
            i + 1,
            Some(Candidate { name: recipes[i].name, distance: edit_distance(recipes[i].name, given) }),
        )
    } else {
        closest(recipes, given, i + 1, best)
    }
}

/// The recipe that may have been meant by `given`, which names none: the
/// name of the recipe nearest to it, if that is fewer than three changes
/// away.
pub open spec fn suggested(recipes: Seq<RecipeView>, given: Seq<char>) -> Option<Seq<char>> {
    match closest(recipes, given, 0, None) {
        Some(best) => Some(best.name),
        None => None,
    }
}

/// The name of the recipe that may have been meant by `given`.
pub fn suggest(recipes: &Vec<Recipe>, given: &String) -> (found: Option<String>)
    ensures
        optional_text(found) == suggested(recipe_views(recipes@), given@),
{
    let wanted = chars_of(given.as_str());
    let mut best: Option<(Vec<char>, u128, usize)> = None;
    let mut i: usize = 0;
    while i < recipes.len()
        invariant
            i <= recipes.len(),
            wanted@ == given@,
            match best {
                None => closest(recipe_views(recipes@), given@, i as int, None) == closest(
                    recipe_views(recipes@),
                    given@,
                    0,
                    None,
                ),
                Some((name, distance, at)) => at < recipes.len() && name@ == recipes@[at as int].name@ && closest(
                    recipe_views(recipes@),
                    given@,
                    i as int,
                    Some(Candidate { name: name@, distance: distance as nat }),
                ) == closest(recipe_views(recipes@), given@, 0, None),
            },
        decreases recipes.len() - i,
    {
        assert(recipe_views(recipes@)[i as int] == recipes@[i as int]@);
        let name = chars_of(recipes[i].name.as_str());
        let d = distance(&name, &wanted);
        let better = d < 3 && match &best {
            None => true,
            Some((other, least, _)) => d < *least || (d == *least && before(&name, other)),
        };
        if better {
            best = Some((name, d, i));
        }
        i += 1;
    }
    match best {
        None => None,
        Some((_, _, at)) => Some(recipes[at].name.clone()),
    }
}

} // verus!
