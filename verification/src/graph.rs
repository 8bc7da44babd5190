use vstd::prelude::*;

verus! {

/// The rows of a graph: for each node, in order, the nodes that it depends on.
pub open spec fn rows(graph: Seq<Vec<usize>>) -> Seq<Seq<usize>> {
    graph.map_values(|row: Vec<usize>| row@)
}

/// What a walk has done so far: which nodes are finished, and the finished
/// nodes in the order in which they were finished.
pub struct Progress {
    pub done: Seq<bool>,
    pub order: Seq<usize>,
}

/// How a walk ends.
pub enum Outcome {
    /// Every node that it set out for is finished.
    Finished { progress: Progress },
    /// The node at the end of `stack` depends, by its dependency number
    /// `edge`, on a node that is on `stack` itself.
    Cycle { stack: Seq<usize>, edge: int },
}

/// Whether every dependency of `graph` is one of its nodes.
pub open spec fn graph_ok(graph: Seq<Seq<usize>>) -> bool {
    forall|v: int, k: int| 0 <= v < graph.len() && 0 <= k < graph[v].len() ==> #[trigger] graph[v][k] < graph.len()
}

/// Whether `stack` holds nodes of `graph`, none of them twice.
pub open spec fn stack_ok(graph: Seq<Seq<usize>>, stack: Seq<usize>) -> bool {
    &&& stack.no_duplicates()
    &&& forall|i: int| 0 <= i < stack.len() ==> #[trigger] stack[i] < graph.len()
}

/// A sequence of different numbers below `n` has at most `n` members.
pub proof fn lemma_distinct_bounded(s: Seq<usize>, n: nat)
    requires
        s.no_duplicates(),
        forall|i: int| 0 <= i < s.len() ==> #[trigger] s[i] < n,
    ensures
        s.len() <= n,
{
    let t = s.map_values(|x: usize| x as int);
    assert(t.no_duplicates()) by {
        assert forall|i: int, j: int| 0 <= i < t.len() && 0 <= j < t.len() && i != j implies t[i] != t[j] by {
            assert(s[i] != s[j]);
        }
    }
    t.unique_seq_to_set();
    vstd::set_lib::lemma_int_range(0, n as int);
    assert(t.to_set().subset_of(vstd::set_lib::set_int_range(0, n as int))) by {
        assert forall|x: int| t.to_set().contains(x) implies vstd::set_lib::set_int_range(0, n as int).contains(
            x,
        ) by {
            let i = choose|i: int| 0 <= i < t.len() && t[i] == x;
            assert(s[i] < n);
        }
    }
    vstd::set_lib::lemma_len_subset(t.to_set(), vstd::set_lib::set_int_range(0, n as int));
}

/// The walk that finishes the node `v`: first, in their order, each of the
/// nodes that `v` depends on and that is not finished yet, then `v` itself.
/// `stack` holds the nodes whose walks are under way; the walk ends in a
/// cycle as soon as a node depends on one of them.
pub open spec fn visit(graph: Seq<Seq<usize>>, v: usize, stack: Seq<usize>, p: Progress) -> Outcome
    decreases graph.len() - stack.len(), 0int, 0int,
    when graph_ok(graph) && stack_ok(graph, stack) && v < graph.len() && !stack.contains(v)
{
    proof {
        let longer = stack.push(v);
        assert(longer.no_duplicates());
        lemma_distinct_bounded(longer, graph.len());
    }
    match visit_from(graph, v, 0, stack.push(v), p) {
        Outcome::Finished { progress } => Outcome::Finished {
            progress: Progress { done: progress.done.update(v as int, true), order: progress.order.push(v) },
        },
        cycle => cycle,
    }
}

/// The walks for the dependencies of `v` from number `k` on.
pub open spec fn visit_from(graph: Seq<Seq<usize>>, v: usize, k: int, stack: Seq<usize>, p: Progress) -> Outcome
    decreases graph.len() - stack.len(), 1int, graph[v as int].len() - k,
    when graph_ok(graph) && stack_ok(graph, stack) && v < graph.len() && 0 <= k
{
    if k >= graph[v as int].len() {
        Outcome::Finished { progress: p }
    } else {
        let d = graph[v as int][k];
        if p.done[d as int] {
            visit_from(graph, v, k + 1, stack, p)
        } else if stack.contains(d) {
            Outcome::Cycle { stack, edge: k }
        } else {
            match visit(graph, d, stack, p) {
                Outcome::Finished { progress } => visit_from(graph, v, k + 1, stack, progress),
                cycle => cycle,
            }
        }
    }
}

/// Whether `stack` holds `node`.
pub fn on_stack(stack: &Vec<usize>, node: usize) -> (found: bool)
    ensures
        found == stack@.contains(node),
{
    let mut i: usize = 0;
    while i < stack.len()
        invariant
            i <= stack.len(),
            forall|j: int| 0 <= j < i ==> stack@[j] != node,
        decreases stack.len() - i,
    {
        if stack[i] == node {
            return true;
        }
        i += 1;
    }
    false
}

/// Finishes the node `v` as `visit` says. On a cycle the result is the number
/// of the dependency that closes it, and `stack` holds the path to the node
/// that has that dependency.
pub(crate) fn walk(
    graph: &Vec<Vec<usize>>,
    v: usize,
    stack: &mut Vec<usize>,
    done: &mut Vec<bool>,
    order: &mut Vec<usize>,
) -> (edge: Option<usize>)
    requires
        graph_ok(rows(graph@)),
        stack_ok(rows(graph@), old(stack)@),
        v < graph.len(),
        !old(stack)@.contains(v),
        old(done).len() == graph.len(),
    ensures
        final(done).len() == graph.len(),
        match edge {
            None => visit(rows(graph@), v, old(stack)@, Progress { done: old(done)@, order: old(order)@ })
                == (Outcome::Finished { progress: Progress { done: final(done)@, order: final(order)@ } })
                && final(stack)@ == old(stack)@,
            Some(k) => visit(rows(graph@), v, old(stack)@, Progress { done: old(done)@, order: old(order)@ })
                == (Outcome::Cycle { stack: final(stack)@, edge: k as int }),
        },
    decreases graph.len() - old(stack).len(),
{
    let ghost stack0 = stack@;
    let ghost start = Progress { done: done@, order: order@ };
    stack.push(v);
    proof {
        assert(stack@.no_duplicates());
        lemma_distinct_bounded(stack@, graph.len() as nat);
        assert(rows(graph@)[v as int] == graph@[v as int]@);
    }
    let mut k: usize = 0;
    while k < graph[v].len()
        invariant
            graph_ok(rows(graph@)),
            stack_ok(rows(graph@), stack@),
            stack_ok(rows(graph@), stack0),
            !stack0.contains(v),
            stack0 == old(stack)@,
            stack@ == stack0.push(v),
            stack@.len() <= graph.len(),
            start == (Progress { done: old(done)@, order: old(order)@ }),
            v < graph.len(),
            done.len() == graph.len(),
            k <= graph[v as int].len(),
            rows(graph@)[v as int] == graph@[v as int]@,
            visit_from(rows(graph@), v, k as int, stack@, Progress { done: done@, order: order@ })
                == visit_from(rows(graph@), v, 0, stack@, start),
        decreases graph[v as int].len() - k,
    {
        let d = graph[v][k];
        assert(d == rows(graph@)[v as int][k as int]);
        if !done[d] {
            if on_stack(stack, d) {
                return Some(k);
            }
            match walk(graph, d, stack, done, order) {
                Some(edge) => {
                    return Some(edge);
                },
                None => {},
            }
        }
        k += 1;
    }
    stack.pop();
    assert(stack@ == stack0);
    done.set(v, true);
    order.push(v);
    None
}

/// Whether the node `from` depends on the node `to`.
pub open spec fn edge(graph: Seq<Seq<usize>>, from: usize, to: usize) -> bool {
    from < graph.len() && graph[from as int].contains(to)
}

/// Whether each node of `path` but the last depends on the next one.
pub open spec fn chain(graph: Seq<Seq<usize>>, path: Seq<usize>) -> bool {
    forall|i: int| 0 <= i < path.len() - 1 ==> edge(graph, #[trigger] path[i], path[i + 1])
}

/// Whether dependencies lead from `from` to `to`, in no step or in more.
pub open spec fn reaches(graph: Seq<Seq<usize>>, from: usize, to: usize) -> bool {
    exists|path: Seq<usize>| #[trigger]
        chain(graph, path) && path.len() > 0 && path[0] == from && path.last() == to
}

/// Whether `node` stands in `order` before index `i`.
pub open spec fn earlier(order: Seq<usize>, i: int, node: usize) -> bool {
    exists|j: int| 0 <= j < i && #[trigger] order[j] == node
}

/// Whether `p` is the state of a walk: the finished nodes are those of the
/// order, none stands in it twice, and every node that a finished node
/// depends on stands before it.
pub open spec fn sound(graph: Seq<Seq<usize>>, p: Progress) -> bool {
    &&& p.done.len() == graph.len()
    &&& p.order.no_duplicates()
    &&& forall|v: usize| v < graph.len() ==> (#[trigger] p.done[v as int] <==> p.order.contains(v))
    &&& forall|i: int| 0 <= i < p.order.len() ==> #[trigger] p.order[i] < graph.len()
    &&& forall|i: int, k: int|
        0 <= i < p.order.len() && 0 <= k < graph[p.order[i] as int].len() ==> earlier(
            p.order,
            i,
            #[trigger] graph[p.order[i] as int][k],
        )
}

/// Whether none of the nodes of `stack` is finished.
pub open spec fn pending(stack: Seq<usize>, p: Progress) -> bool {
    forall|i: int| 0 <= i < stack.len() ==> !p.done[#[trigger] stack[i] as int]
}

/// Whether the walk from `v` took `p` to `q`: the order grew at its end, by
/// nodes that `v` reaches.
pub open spec fn grown(graph: Seq<Seq<usize>>, v: usize, p: Progress, q: Progress) -> bool {
    &&& p.order.is_prefix_of(q.order)
    &&& forall|i: int| p.order.len() <= i < q.order.len() ==> reaches(graph, v, #[trigger] q.order[i])
}

/// Whether `stack` with the dependency number `edge` of its last node is a
/// cycle that was found: a path of different nodes, the last of which depends
/// on one of them.
pub open spec fn closes_cycle(graph: Seq<Seq<usize>>, stack: Seq<usize>, edge: int) -> bool {
    &&& stack.len() > 0
    &&& stack_ok(graph, stack)
    &&& chain(graph, stack)
    &&& 0 <= edge < graph[stack.last() as int].len()
    &&& stack.contains(graph[stack.last() as int][edge])
}

/// A node reaches itself.
pub proof fn lemma_reaches_self(graph: Seq<Seq<usize>>, v: usize)
    ensures
        reaches(graph, v, v),
{
    let path = seq![v];
    assert(chain(graph, path) && path.len() > 0 && path[0] == v && path.last() == v);
}

/// A node reaches what a node that it depends on reaches.
pub proof fn lemma_reaches_step(graph: Seq<Seq<usize>>, v: usize, d: usize, u: usize)
    requires
        edge(graph, v, d),
        reaches(graph, d, u),
    ensures
        reaches(graph, v, u),
{
    let rest = choose|path: Seq<usize>| #[trigger]
        chain(graph, path) && path.len() > 0 && path[0] == d && path.last() == u;
    let path = seq![v] + rest;
    assert forall|i: int| 0 <= i < path.len() - 1 implies edge(graph, #[trigger] path[i], path[i + 1]) by {
        if i > 0 {
            assert(path[i] == rest[i - 1]);
            assert(path[i + 1] == rest[i]);
        }
    }
    assert(chain(graph, path) && path.len() > 0 && path[0] == v && path.last() == u);
}

/// What was finished stays finished when the order grows.
pub proof fn lemma_done_stays(graph: Seq<Seq<usize>>, p: Progress, q: Progress, x: usize)
    requires
        sound(graph, p),
        sound(graph, q),
        p.order.is_prefix_of(q.order),
        x < graph.len(),
        p.done[x as int],
    ensures
        q.done[x as int],
{
    let i = choose|i: int| 0 <= i < p.order.len() && p.order[i] == x;
    assert(q.order[i] == x);
}

/// The walk for one node keeps the state sound, finishes the node and adds
/// only nodes that the node reaches; a cycle that it reports is one.
pub proof fn lemma_visit(graph: Seq<Seq<usize>>, v: usize, stack: Seq<usize>, p: Progress)
    requires
        graph_ok(graph),
        stack_ok(graph, stack),
        v < graph.len(),
        !stack.contains(v),
        chain(graph, stack.push(v)),
        sound(graph, p),
        pending(stack, p),
        !p.done[v as int],
    ensures
        match visit(graph, v, stack, p) {
            Outcome::Finished { progress: q } => {
                &&& sound(graph, q)
                &&& pending(stack, q)
                &&& grown(graph, v, p, q)
                &&& q.order.len() > p.order.len()
                &&& q.order.last() == v
            },
            Outcome::Cycle { stack: found, edge } => {
                &&& closes_cycle(graph, found, edge)
                &&& stack.push(v).is_prefix_of(found)
            },
        },
    decreases graph.len() - stack.len(), 0int, 0int,
{
    let longer = stack.push(v);
    assert(longer.no_duplicates());
    lemma_distinct_bounded(longer, graph.len());
    assert(pending(longer, p)) by {
        assert forall|i: int| 0 <= i < longer.len() implies !p.done[#[trigger] longer[i] as int] by {
            if i < stack.len() {
                assert(longer[i] == stack[i]);
            }
        }
    }
    lemma_visit_from(graph, v, 0, longer, p);
    match visit_from(graph, v, 0, longer, p) {
        Outcome::Finished { progress: q } => {
            let r = Progress { done: q.done.update(v as int, true), order: q.order.push(v) };
            assert(!q.done[v as int]) by {
                assert(longer[stack.len() as int] == v);
            }
            assert(!q.order.contains(v));
            assert(r.order.no_duplicates());
            assert forall|x: usize| x < graph.len() implies (#[trigger] r.done[x as int] <==> r.order.contains(
                x,
            )) by {
                if x == v {
                    assert(r.order[q.order.len() as int] == v);
                } else if q.done[x as int] {
                    let i = choose|i: int| 0 <= i < q.order.len() && q.order[i] == x;
                    assert(r.order[i] == x);
                } else if r.order.contains(x) {
                    let i = choose|i: int| 0 <= i < r.order.len() && r.order[i] == x;
                    if i < q.order.len() {
                        assert(q.order[i] == r.order[i]);
                        assert(q.order.contains(x));
                    }
                }
            }
            assert forall|i: int, k: int|
                0 <= i < r.order.len() && 0 <= k < graph[r.order[i] as int].len() implies earlier(
                r.order,
                i,
                #[trigger] graph[r.order[i] as int][k],
            ) by {
                let d = graph[r.order[i] as int][k];
                if i < q.order.len() {
                    assert(r.order[i] == q.order[i]);
                    assert(earlier(q.order, i, graph[q.order[i] as int][k]));
                    let j = choose|j: int| 0 <= j < i && q.order[j] == d;
                    assert(r.order[j] == d);
                } else {
                    assert(q.done[d as int]);
                    let j = choose|j: int| 0 <= j < q.order.len() && q.order[j] == d;
                    assert(r.order[j] == d);
                }
            }
            assert(sound(graph, r));
            assert(pending(stack, r)) by {
                assert forall|i: int| 0 <= i < stack.len() implies !r.done[#[trigger] stack[i] as int] by {
                    assert(longer[i] == stack[i]);
                }
            }
            assert(grown(graph, v, p, r)) by {
                assert forall|i: int| p.order.len() <= i < r.order.len() implies reaches(
                    graph,
                    v,
                    #[trigger] r.order[i],
                ) by {
                    if i < q.order.len() {
                        assert(r.order[i] == q.order[i]);
                    } else {
                        lemma_reaches_self(graph, v);
                    }
                }
            }
        },
        Outcome::Cycle { stack: found, edge } => {},
    }
}

/// The walks for the dependencies of a node from number `k` on keep the state
/// sound, finish each of those dependencies and add only nodes that the node
/// reaches; a cycle that they report is one.
pub proof fn lemma_visit_from(graph: Seq<Seq<usize>>, v: usize, k: int, stack: Seq<usize>, p: Progress)
    requires
        graph_ok(graph),
        stack_ok(graph, stack),
        stack.len() > 0,
        stack.last() == v,
        v < graph.len(),
        chain(graph, stack),
        sound(graph, p),
        pending(stack, p),
        0 <= k <= graph[v as int].len(),
        forall|j: int| 0 <= j < k ==> p.done[#[trigger] graph[v as int][j] as int],
    ensures
        match visit_from(graph, v, k, stack, p) {
            Outcome::Finished { progress: q } => {
                &&& sound(graph, q)
                &&& pending(stack, q)
                &&& grown(graph, v, p, q)
                &&& forall|j: int|
                    0 <= j < graph[v as int].len() ==> q.done[#[trigger] graph[v as int][j] as int]
            },
            Outcome::Cycle { stack: found, edge } => {
                &&& closes_cycle(graph, found, edge)
                &&& stack.is_prefix_of(found)
            },
        },
    decreases graph.len() - stack.len(), 1int, graph[v as int].len() - k,
{
    if k < graph[v as int].len() {
        let d = graph[v as int][k];
        if p.done[d as int] {
            lemma_visit_from(graph, v, k + 1, stack, p);
        } else if stack.contains(d) {
        } else {
            assert(chain(graph, stack.push(d))) by {
                let longer = stack.push(d);
                assert forall|i: int| 0 <= i < longer.len() - 1 implies edge(
                    graph,
                    #[trigger] longer[i],
                    longer[i + 1],
                ) by {
                    if i < stack.len() - 1 {
                        assert(longer[i] == stack[i]);
                        assert(longer[i + 1] == stack[i + 1]);
                    }
                }
            }
            lemma_visit(graph, d, stack, p);
            match visit(graph, d, stack, p) {
                Outcome::Finished { progress: q } => {
                    assert(q.done[d as int]) by {
                        assert(q.order[q.order.len() - 1] == d);
                    }
                    assert forall|j: int| 0 <= j < k + 1 implies q.done[#[trigger] graph[v as int][j] as int] by {
                        if j < k {
                            lemma_done_stays(graph, p, q, graph[v as int][j]);
                        }
                    }
                    lemma_visit_from(graph, v, k + 1, stack, q);
                    match visit_from(graph, v, k + 1, stack, q) {
                        Outcome::Finished { progress: r } => {
                            assert forall|i: int| p.order.len() <= i < r.order.len() implies reaches(
                                graph,
                                v,
                                #[trigger] r.order[i],
                            ) by {
                                if i < q.order.len() {
                                    assert(r.order[i] == q.order[i]);
                                    lemma_reaches_step(graph, v, d, q.order[i]);
                                }
                            }
                        },
                        Outcome::Cycle { stack: found, edge } => {},
                    }
                },
                Outcome::Cycle { stack: found, edge } => {
                    assert(stack.is_prefix_of(found)) by {
                        assert(stack.is_prefix_of(stack.push(d)));
                    }
                },
            }
        }
    }
}

} // verus!
