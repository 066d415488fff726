//! Depth-first search for dependency cycles.

use vstd::prelude::*;

verus! {

/// Every edge leads to a node of the graph. `graph[i]` lists the nodes that
/// node `i` depends on.
pub open spec fn is_graph(graph: Seq<Seq<int>>) -> bool {
    forall|i: int, k: int|
        0 <= i < graph.len() && 0 <= k < graph[i].len() ==> 0 <= #[trigger] graph[i][k]
            < graph.len()
}

/// Consecutive nodes of `path` depend on one another.
pub open spec fn is_path(graph: Seq<Seq<int>>, path: Seq<int>) -> bool {
    &&& forall|i: int| 0 <= i < path.len() ==> 0 <= #[trigger] path[i] < graph.len()
    &&& forall|i: int|
        0 <= i && i + 1 < path.len() ==> graph[#[trigger] path[i]].contains(path[i + 1])
}

/// A path of at least one edge that ends where it began.
pub open spec fn is_cycle(graph: Seq<Seq<int>>, path: Seq<int>) -> bool {
    is_path(graph, path) && path.len() >= 2 && path[0] == path.last()
}

/// The graph has no cycle.
pub open spec fn acyclic(graph: Seq<Seq<int>>) -> bool {
    forall|path: Seq<int>| !#[trigger] is_cycle(graph, path)
}

/// The first position of `node` on the stack.
pub open spec fn stack_position(stack: Seq<int>, node: int) -> int {
    crate::text::first_position(stack, node)
}

/// What a depth-first visit of `node` gives: the finished nodes in the order in
/// which they finished, or the first cycle that the visit closes.
pub open spec fn visit(
    graph: Seq<Seq<int>>,
    node: int,
    done: Seq<int>,
    stack: Seq<int>,
) -> Result<Seq<int>, Seq<int>>
    decreases graph.len() - stack.len(), 0int,
{
    if done.contains(node) {
        Ok(done)
    } else if stack.contains(node) {
        Err(stack.skip(stack_position(stack, node)).push(node))
    } else if stack.len() >= graph.len() {
        Ok(done)
    } else {
        match visit_needs(graph, node, 0, done, stack.push(node)) {
            Ok(finished) => Ok(finished.push(node)),
            Err(cycle) => Err(cycle),
        }
    }
}

/// Visits the dependencies of `node` from the `k`-th on.
pub open spec fn visit_needs(
    graph: Seq<Seq<int>>,
    node: int,
    k: int,
    done: Seq<int>,
    stack: Seq<int>,
) -> Result<Seq<int>, Seq<int>>
    decreases graph.len() - stack.len(), graph[node].len() - k + 1,
{
    if k < 0 || k >= graph[node].len() {
        Ok(done)
    } else {
        match visit(graph, graph[node][k], done, stack) {
            Ok(finished) => visit_needs(graph, node, k + 1, finished, stack),
            Err(cycle) => Err(cycle),
        }
    }
}

/// Visits all nodes from `node` on, in order.
pub open spec fn visit_all(graph: Seq<Seq<int>>, node: int, done: Seq<int>) -> Result<
    Seq<int>,
    Seq<int>,
>
    decreases graph.len() - node,
{
    if node >= graph.len() {
        Ok(done)
    } else {
        match visit(graph, node, done, seq![]) {
            Ok(finished) => visit_all(graph, node + 1, finished),
            Err(cycle) => Err(cycle),
        }
    }
}

/// The first cycle that a search in node order finds.
pub open spec fn first_cycle(graph: Seq<Seq<int>>) -> Option<Seq<int>> {
    match visit_all(graph, 0, seq![]) {
        Ok(_) => None,
        Err(cycle) => Some(cycle),
    }
}

/// Every node of the list stands behind all that it depends on.
pub open spec fn settled(graph: Seq<Seq<int>>, done: Seq<int>) -> bool {
    &&& forall|p: int| 0 <= p < done.len() ==> 0 <= #[trigger] done[p] < graph.len()
    &&& forall|p: int, k: int|
        #![trigger graph[done[p]][k]]
        0 <= p < done.len() && 0 <= k < graph[done[p]].len() ==> done.take(p).contains(
            graph[done[p]][k],
        )
}

/// The stack is a path without repetition that leads to `node`.
pub open spec fn leads_to(graph: Seq<Seq<int>>, stack: Seq<int>, node: int) -> bool {
    &&& is_path(graph, stack)
    &&& stack.no_duplicates()
    &&& 0 <= node < graph.len()
    &&& stack.len() > 0 ==> graph[stack.last()].contains(node)
}

proof fn lemma_path_fits(graph: Seq<Seq<int>>, stack: Seq<int>)
    requires
        is_path(graph, stack),
        stack.no_duplicates(),
    ensures
        stack.len() <= graph.len(),
{
    stack.unique_seq_to_set();
    let nodes = vstd::set_lib::set_int_range(0, graph.len() as int);
    vstd::set_lib::lemma_int_range(0, graph.len() as int);
    assert forall|x: int| stack.to_set().contains(x) implies nodes.contains(x) by {
        let i = choose|i: int| 0 <= i < stack.len() && stack[i] == x;
        assert(0 <= stack[i] < graph.len());
    }
    vstd::set_lib::lemma_len_subset(stack.to_set(), nodes);
}

proof fn lemma_push_path(graph: Seq<Seq<int>>, stack: Seq<int>, node: int)
    requires
        leads_to(graph, stack, node),
    ensures
        is_path(graph, stack.push(node)),
{
    let longer = stack.push(node);
    assert forall|i: int| 0 <= i && i + 1 < longer.len() implies graph[#[trigger] longer[i]].contains(
        longer[i + 1],
    ) by {
        if i + 1 < stack.len() {
            assert(graph[stack[i]].contains(stack[i + 1]));
        }
    }
}

proof fn lemma_settled_push(graph: Seq<Seq<int>>, done: Seq<int>, node: int)
    requires
        settled(graph, done),
        0 <= node < graph.len(),
        forall|k: int| 0 <= k < graph[node].len() ==> done.contains(#[trigger] graph[node][k]),
    ensures
        settled(graph, done.push(node)),
{
    let longer = done.push(node);
    assert forall|p: int, k: int|
        #![trigger graph[longer[p]][k]]
        0 <= p < longer.len() && 0 <= k < graph[longer[p]].len() implies longer.take(p).contains(
        graph[longer[p]][k],
    ) by {
        if p < done.len() {
            assert(longer.take(p) =~= done.take(p));
            assert(longer[p] == done[p]);
            assert(done.take(p).contains(graph[done[p]][k]));
        } else {
            assert(longer.take(p) =~= done);
        }
    }
}

proof fn lemma_visit(graph: Seq<Seq<int>>, node: int, done: Seq<int>, stack: Seq<int>)
    requires
        is_graph(graph),
        settled(graph, done),
        leads_to(graph, stack, node),
    ensures
        match visit(graph, node, done, stack) {
            Ok(finished) => settled(graph, finished) && done.is_prefix_of(finished)
                && finished.contains(node),
            Err(cycle) => is_cycle(graph, cycle),
        },
    decreases graph.len() - stack.len(), 0int,
{
    if done.contains(node) {
        assert(done.subrange(0, done.len() as int) =~= done);
    } else if stack.contains(node) {
        let start = stack_position(stack, node);
        crate::text::lemma_first_position(stack, node);
        let i = choose|i: int| 0 <= i < stack.len() && stack[i] == node;
        assert(stack[i] == node);
        let cycle = stack.skip(start).push(node);
        lemma_push_path(graph, stack, node);
        let longer = stack.push(node);
        assert(cycle =~= longer.skip(start));
        assert forall|k: int| 0 <= k < cycle.len() implies 0 <= #[trigger] cycle[k] < graph.len() by {
            assert(cycle[k] == longer[start + k]);
        }
        assert forall|k: int| 0 <= k && k + 1 < cycle.len() implies graph[#[trigger] cycle[k]].contains(
            cycle[k + 1],
        ) by {
            assert(cycle[k] == longer[start + k]);
            assert(cycle[k + 1] == longer[start + k + 1]);
            assert(graph[longer[start + k]].contains(longer[start + k + 1]));
        }
        assert(cycle[0] == stack[start]);
    } else {
        lemma_push_path(graph, stack, node);
        let longer = stack.push(node);
        assert(longer.no_duplicates());
        lemma_path_fits(graph, longer);
        lemma_visit_needs(graph, node, 0, done, longer);
        if let Ok(finished) = visit_needs(graph, node, 0, done, longer) {
            lemma_settled_push(graph, finished, node);
            let more = finished.push(node);
            assert(more[finished.len() as int] == node);
            assert(more.subrange(0, done.len() as int) =~= finished.subrange(
                0,
                done.len() as int,
            ));
        }
    }
}

proof fn lemma_prefix_contains(a: Seq<int>, b: Seq<int>, x: int)
    requires
        a.is_prefix_of(b),
        a.contains(x),
    ensures
        b.contains(x),
{
    let i = choose|i: int| 0 <= i < a.len() && a[i] == x;
    assert(b.subrange(0, a.len() as int)[i] == x);
    assert(b[i] == x);
}

proof fn lemma_prefix_transitive(a: Seq<int>, b: Seq<int>, c: Seq<int>)
    requires
        a.is_prefix_of(b),
        b.is_prefix_of(c),
    ensures
        a.is_prefix_of(c),
{
    assert(c.subrange(0, a.len() as int) =~= b.subrange(0, a.len() as int)) by {
        assert forall|i: int| 0 <= i < a.len() implies c[i] == b[i] by {
            assert(c.subrange(0, b.len() as int)[i] == b[i]);
        }
    }
}

proof fn lemma_visit_needs(
    graph: Seq<Seq<int>>,
    node: int,
    k: int,
    done: Seq<int>,
    stack: Seq<int>,
)
    requires
        is_graph(graph),
        settled(graph, done),
        is_path(graph, stack),
        stack.no_duplicates(),
        stack.len() > 0,
        stack.last() == node,
        0 <= node < graph.len(),
        0 <= k <= graph[node].len(),
        forall|j: int| 0 <= j < k ==> done.contains(#[trigger] graph[node][j]),
    ensures
        match visit_needs(graph, node, k, done, stack) {
            Ok(finished) => settled(graph, finished) && done.is_prefix_of(finished) && forall|j: int|
                0 <= j < graph[node].len() ==> finished.contains(#[trigger] graph[node][j]),
            Err(cycle) => is_cycle(graph, cycle),
        },
    decreases graph.len() - stack.len(), graph[node].len() - k + 1,
{
    if k >= graph[node].len() {
        assert(done.subrange(0, done.len() as int) =~= done);
    } else {
        let next = graph[node][k];
        assert(graph[stack.last()].contains(next));
        lemma_visit(graph, next, done, stack);
        if let Ok(finished) = visit(graph, next, done, stack) {
            assert forall|j: int| 0 <= j < k + 1 implies finished.contains(
                #[trigger] graph[node][j],
            ) by {
                if j < k {
                    lemma_prefix_contains(done, finished, graph[node][j]);
                }
            }
            lemma_visit_needs(graph, node, k + 1, finished, stack);
            if let Ok(more) = visit_needs(graph, node, k + 1, finished, stack) {
                lemma_prefix_transitive(done, finished, more);
            }
        }
    }
}

proof fn lemma_visit_all(graph: Seq<Seq<int>>, node: int, done: Seq<int>)
    requires
        is_graph(graph),
        settled(graph, done),
        0 <= node <= graph.len(),
        forall|i: int| 0 <= i < node ==> done.contains(i),
    ensures
        match visit_all(graph, node, done) {
            Ok(finished) => settled(graph, finished) && forall|i: int|
                0 <= i < graph.len() ==> finished.contains(i),
            Err(cycle) => is_cycle(graph, cycle),
        },
    decreases graph.len() - node,
{
    if node < graph.len() {
        let empty: Seq<int> = seq![];
        lemma_visit(graph, node, done, empty);
        if let Ok(finished) = visit(graph, node, done, empty) {
            assert forall|i: int| 0 <= i < node + 1 implies finished.contains(i) by {
                if i < node {
                    lemma_prefix_contains(done, finished, i);
                }
            }
            lemma_visit_all(graph, node + 1, finished);
        }
    }
}

proof fn lemma_positions_fall(graph: Seq<Seq<int>>, done: Seq<int>, path: Seq<int>, k: int)
    requires
        is_graph(graph),
        settled(graph, done),
        forall|i: int| 0 <= i < graph.len() ==> done.contains(i),
        is_path(graph, path),
        0 <= k < path.len(),
    ensures
        stack_position(done, path[k]) + k <= stack_position(done, path[0]),
    decreases k,
{
    if k > 0 {
        lemma_positions_fall(graph, done, path, k - 1);
        let from = path[k - 1];
        let to = path[k];
        assert(graph[path[k - 1]].contains(path[k - 1 + 1]));
        let j = choose|j: int| 0 <= j < graph[from].len() && graph[from][j] == to;
        let p = stack_position(done, from);
        crate::text::lemma_first_position(done, from);
        assert(done.contains(from));
        let w = choose|w: int| 0 <= w < done.len() && done[w] == from;
        assert(done[w] == from);
        assert(done[p] == from);
        assert(done.take(p).contains(graph[done[p]][j]));
        let q = choose|q: int| 0 <= q < done.take(p).len() && done.take(p)[q] == to;
        assert(done[q] == to);
        crate::text::lemma_first_position(done, to);
    }
}

/// The search reports a cycle exactly when the graph has one, and what it
/// reports is a cycle.
pub proof fn search_finds_every_cycle(graph: Seq<Seq<int>>)
    requires
        is_graph(graph),
    ensures
        first_cycle(graph) is None <==> acyclic(graph),
        first_cycle(graph) matches Some(cycle) ==> is_cycle(graph, cycle),
{
    let empty: Seq<int> = seq![];
    lemma_visit_all(graph, 0, empty);
    match visit_all(graph, 0, empty) {
        Ok(finished) => {
            assert forall|path: Seq<int>| !#[trigger] is_cycle(graph, path) by {
                if is_cycle(graph, path) {
                    lemma_positions_fall(graph, finished, path, path.len() - 1);
                }
            }
        },
        Err(cycle) => {
            assert(is_cycle(graph, cycle));
        },
    }
}

/// The place of a node in the order in which the search finishes.
pub open spec fn height(graph: Seq<Seq<int>>, node: int) -> int {
    match visit_all(graph, 0, seq![]) {
        Ok(finished) => stack_position(finished, node),
        Err(_) => 0,
    }
}

/// The number of nodes that the search finishes.
pub open spec fn heights(graph: Seq<Seq<int>>) -> int {
    match visit_all(graph, 0, seq![]) {
        Ok(finished) => finished.len() as int,
        Err(_) => 0,
    }
}

/// In a graph without cycles every node stands above all that it depends on.
pub proof fn lemma_heights_fall(graph: Seq<Seq<int>>)
    requires
        is_graph(graph),
        acyclic(graph),
    ensures
        forall|i: int|
            0 <= i < graph.len() ==> 0 <= #[trigger] height(graph, i) < heights(graph),
        forall|i: int, k: int|
            0 <= i < graph.len() && 0 <= k < graph[i].len() ==> height(
                graph,
                #[trigger] graph[i][k],
            ) < height(graph, i),
{
    search_finds_every_cycle(graph);
    let empty: Seq<int> = seq![];
    lemma_visit_all(graph, 0, empty);
    let finished = visit_all(graph, 0, empty)->Ok_0;
    assert forall|i: int| 0 <= i < graph.len() implies 0 <= #[trigger] height(graph, i) < heights(
        graph,
    ) by {
        assert(finished.contains(i));
        let w = choose|w: int| 0 <= w < finished.len() && finished[w] == i;
        assert(finished[w] == i);
        crate::text::lemma_first_position(finished, i);
    }
    assert forall|i: int, k: int| 0 <= i < graph.len() && 0 <= k < graph[i].len() implies height(
        graph,
        #[trigger] graph[i][k],
    ) < height(graph, i) by {
        let path = seq![i, graph[i][k]];
        assert(is_path(graph, path));
        lemma_positions_fall(graph, finished, path, 1);
    }
}

proof fn lemma_ranks_fall(
    graph: Seq<Seq<int>>,
    major: spec_fn(int) -> int,
    minor: spec_fn(int) -> int,
    path: Seq<int>,
    k: int,
)
    requires
        forall|i: int, k: int|
            0 <= i < graph.len() && 0 <= k < graph[i].len() ==> {
                let to = #[trigger] graph[i][k];
                major(to) < major(i) || (major(to) == major(i) && minor(to) < minor(i))
            },
        is_path(graph, path),
        0 < k < path.len(),
    ensures
        major(path[k]) < major(path[0]) || (major(path[k]) == major(path[0]) && minor(path[k])
            < minor(path[0])),
    decreases k,
{
    let from = path[k - 1];
    assert(graph[path[k - 1]].contains(path[k - 1 + 1]));
    let j = choose|j: int| 0 <= j < graph[from].len() && graph[from][j] == path[k];
    assert(graph[from][j] == path[k]);
    if k > 1 {
        lemma_ranks_fall(graph, major, minor, path, k - 1);
    }
}

/// A graph has no cycle if along every edge a rank falls, or stays while a
/// second one falls.
pub proof fn falling_ranks_exclude_cycles(
    graph: Seq<Seq<int>>,
    major: spec_fn(int) -> int,
    minor: spec_fn(int) -> int,
)
    requires
        forall|i: int, k: int|
            0 <= i < graph.len() && 0 <= k < graph[i].len() ==> {
                let to = #[trigger] graph[i][k];
                major(to) < major(i) || (major(to) == major(i) && minor(to) < minor(i))
            },
    ensures
        acyclic(graph),
{
    assert forall|path: Seq<int>| !#[trigger] is_cycle(graph, path) by {
        if is_cycle(graph, path) {
            lemma_ranks_fall(graph, major, minor, path, path.len() - 1);
        }
    }
}

/// The numbers of a list.
pub open spec fn ints(list: Seq<usize>) -> Seq<int> {
    Seq::new(list.len(), |i: int| list[i] as int)
}

/// The edges of a graph as numbers.
pub open spec fn edges(graph: Seq<Vec<usize>>) -> Seq<Seq<int>> {
    Seq::new(graph.len(), |i: int| ints(graph[i]@))
}

fn find(list: &Vec<usize>, node: usize) -> (position: usize)
    ensures
        position == stack_position(ints(list@), node as int),
        position < list.len() <==> ints(list@).contains(node as int),
        position <= list.len(),
{
    let ghost all = ints(list@);
    let mut i: usize = 0;
    while i < list.len() && list[i] != node
        invariant
            i <= list.len(),
            all == ints(list@),
            forall|k: int| 0 <= k < i ==> all[k] != node as int,
        decreases list.len() - i,
    {
        i += 1;
    }
    proof {
        if i < list.len() {
            assert(all[i as int] == node as int);
        }
        crate::text::lemma_first_position_is(all, node as int, i as int);
    }
    i
}

fn visit_node(
    graph: &Vec<Vec<usize>>,
    node: usize,
    done: &mut Vec<usize>,
    stack: &mut Vec<usize>,
) -> (result: Result<(), Vec<usize>>)
    requires
        is_graph(edges(graph@)),
        settled(edges(graph@), ints(old(done)@)),
        leads_to(edges(graph@), ints(old(stack)@), node as int),
    ensures
        match result {
            Ok(()) => visit(edges(graph@), node as int, ints(old(done)@), ints(old(stack)@)) == Ok::<
                Seq<int>,
                Seq<int>,
            >(ints(final(done)@)) && final(stack)@ == old(stack)@,
            Err(cycle) => visit(edges(graph@), node as int, ints(old(done)@), ints(old(stack)@))
                == Err::<Seq<int>, Seq<int>>(ints(cycle@)),
        },
    decreases graph.len() - old(stack).len(),
{
    let ghost g = edges(graph@);
    let ghost before = ints(done@);
    let ghost path = ints(stack@);
    let ghost stack_before = stack@;
    if find(done, node) < done.len() {
        return Ok(());
    }
    let start = find(stack, node);
    if start < stack.len() {
        let mut cycle: Vec<usize> = Vec::new();
        let mut i: usize = start;
        while i < stack.len()
            invariant
                start <= i <= stack.len(),
                cycle@ == stack@.subrange(start as int, i as int),
            decreases stack.len() - i,
        {
            cycle.push(stack[i]);
            i += 1;
        }
        cycle.push(node);
        proof {
            assert(ints(cycle@) =~= path.skip(start as int).push(node as int));
        }
        return Err(cycle);
    }
    let ghost longer = path.push(node as int);
    proof {
        lemma_push_path(g, path, node as int);
        assert(longer.no_duplicates());
        lemma_path_fits(g, longer);
        assert(ints(stack@.push(node)) =~= longer);
        assert(g[node as int] == ints(graph@[node as int]@));
    }
    stack.push(node);
    let ghost pushed = stack@;
    let mut k: usize = 0;
    while k < graph[node].len()
        invariant
            g == edges(graph@),
            is_graph(g),
            node < graph.len(),
            g[node as int] == ints(graph@[node as int]@),
            k <= graph@[node as int].len(),
            stack@ == pushed,
            ints(pushed) == longer,
            longer == path.push(node as int),
            is_path(g, longer),
            longer.no_duplicates(),
            longer.len() <= g.len(),
            longer.len() == path.len() + 1,
            pushed.len() == old(stack).len() + 1,
            settled(g, ints(done@)),
            visit_needs(g, node as int, 0, before, longer) == visit_needs(
                g,
                node as int,
                k as int,
                ints(done@),
                longer,
            ),
            visit(g, node as int, before, path) == (match visit_needs(
                g,
                node as int,
                0,
                before,
                longer,
            ) {
                Ok(finished) => Ok::<Seq<int>, Seq<int>>(finished.push(node as int)),
                Err(cycle) => Err::<Seq<int>, Seq<int>>(cycle),
            }),
            before == ints(old(done)@),
            path == ints(old(stack)@),
        decreases graph@[node as int].len() - k,
    {
        let next = graph[node][k];
        proof {
            assert(g[node as int][k as int] == next as int);
            assert(g[longer.last()].contains(next as int));
            lemma_visit(g, next as int, ints(done@), longer);
        }
        match visit_node(graph, next, done, stack) {
            Ok(()) => {},
            Err(cycle) => {
                return Err(cycle);
            },
        }
        k += 1;
    }
    stack.pop();
    let ghost finished = ints(done@);
    done.push(node);
    proof {
        assert(ints(done@) =~= finished.push(node as int));
        assert(stack@ =~= stack_before);
    }
    Ok(())
}

/// The first cycle of a dependency graph, as a list of nodes that ends where it
/// began.
pub fn find_cycle(graph: &Vec<Vec<usize>>) -> (cycle: Option<Vec<usize>>)
    requires
        is_graph(edges(graph@)),
    ensures
        cycle is None <==> acyclic(edges(graph@)),
        match cycle {
            Some(path) => first_cycle(edges(graph@)) == Some(ints(path@)),
            None => first_cycle(edges(graph@)) is None,
        },
        cycle matches Some(path) ==> is_cycle(edges(graph@), ints(path@)),
{
    let ghost g = edges(graph@);
    let mut done: Vec<usize> = Vec::new();
    let mut stack: Vec<usize> = Vec::new();
    proof {
        search_finds_every_cycle(g);
        assert(ints(done@) =~= seq![]);
        assert(ints(stack@) =~= seq![]);
    }
    let mut node: usize = 0;
    while node < graph.len()
        invariant
            node <= graph.len(),
            g == edges(graph@),
            is_graph(g),
            ints(stack@) == Seq::<int>::empty(),
            settled(g, ints(done@)),
            visit_all(g, 0, seq![]) == visit_all(g, node as int, ints(done@)),
            first_cycle(g) is None <==> acyclic(g),
            first_cycle(g) matches Some(path) ==> is_cycle(g, path),
        decreases graph.len() - node,
    {
        proof {
            lemma_visit(g, node as int, ints(done@), Seq::<int>::empty());
        }
        match visit_node(graph, node, &mut done, &mut stack) {
            Ok(()) => {},
            Err(cycle) => {
                return Some(cycle);
            },
        }
        node += 1;
    }
    None
}

} // verus!
