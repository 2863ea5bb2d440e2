use vstd::prelude::*;

use crate::nfa::{
    accepts, compiled, nullable, dfs, dfs_step, dfs_upto, extend, lemma_targets, match_results, targets_from,
    Automaton, Expr, Log,
};

verus! {

/// Whether `path` consumes all of `ts` starting at node `from`: each token
/// moves along an edge into the next node of the path, whose pattern accepts
/// that token.
pub open spec fn is_run(g: Automaton, from: usize, ts: Seq<Seq<char>>, path: Seq<usize>) -> bool
    decreases ts.len(),
{
    &&& path.len() == ts.len()
    &&& ts.len() > 0 ==> {
        &&& g.edges.contains((from, path[0]))
        &&& path[0] < g.nodes.len()
        &&& accepts(g.nodes[path[0] as int].pattern, ts[0])
        &&& is_run(g, path[0], ts.drop_first(), path.drop_first())
    }
}

/// The (group, token) pairs that a run records, in order.
pub open spec fn run_log(g: Automaton, ts: Seq<Seq<char>>, path: Seq<usize>) -> Log
    decreases path.len(),
{
    if path.len() == 0 || ts.len() == 0 {
        Seq::empty()
    } else {
        let rest = run_log(g, ts.drop_first(), path.drop_first());
        match g.nodes[path[0] as int].group {
            Some(name) => seq![(name@, ts[0])] + rest,
            None => rest,
        }
    }
}

/// The number of steps of a path that enter a node outside any group.
pub open spec fn ungrouped_steps(g: Automaton, path: Seq<usize>) -> nat
    decreases path.len(),
{
    if path.len() == 0 {
        0
    } else {
        (if g.nodes[path[0] as int].group is None {
            1nat
        } else {
            0nat
        }) + ungrouped_steps(g, path.drop_first())
    }
}

proof fn lemma_run_counts(g: Automaton, ts: Seq<Seq<char>>, path: Seq<usize>)
    requires
        path.len() == ts.len(),
    ensures
        run_log(g, ts, path).len() + ungrouped_steps(g, path) == ts.len(),
    decreases path.len(),
{
    if path.len() > 0 {
        lemma_run_counts(g, ts.drop_first(), path.drop_first());
    }
}

proof fn lemma_dfs_sound(g: Automaton, n: usize, ts: Seq<Seq<char>>, log: Log, r: Log)
    requires
        dfs(g, n, ts, log).contains(r),
    ensures
        exists|path: Seq<usize>| #[trigger] is_run(g, n, ts, path) && r == log + run_log(g, ts, path),
    decreases ts.len(), targets_from(g.edges, n).len() + 1,
{
    if ts.len() == 0 {
        let path = Seq::<usize>::empty();
        assert(r == log);
        assert(log + run_log(g, ts, path) =~= log);
        assert(is_run(g, n, ts, path));
    } else {
        lemma_dfs_upto_sound(g, n, ts, log, targets_from(g.edges, n).len(), r);
    }
}

proof fn lemma_dfs_upto_sound(g: Automaton, n: usize, ts: Seq<Seq<char>>, log: Log, j: nat, r: Log)
    requires
        ts.len() > 0,
        j <= targets_from(g.edges, n).len(),
        dfs_upto(g, n, ts, log, j).contains(r),
    ensures
        exists|path: Seq<usize>| #[trigger] is_run(g, n, ts, path) && r == log + run_log(g, ts, path),
    decreases ts.len(), j,
{
    let k = (j - 1) as nat;
    let first = dfs_upto(g, n, ts, log, k);
    let step = dfs_step(g, n, ts, log, k);
    assert(dfs_upto(g, n, ts, log, j) == first + step);
    let i = choose|i: int| 0 <= i < (first + step).len() && (first + step)[i] == r;
    if i < first.len() {
        assert(first[i] == r);
        lemma_dfs_upto_sound(g, n, ts, log, k, r);
    } else {
        assert(step[i - first.len()] == r);
        let b = targets_from(g.edges, n)[k as int];
        let next = extend(log, g.nodes[b as int].group, ts[0]);
        assert(step == dfs(g, b, ts.drop_first(), next));
        lemma_dfs_sound(g, b, ts.drop_first(), next, r);
        let rest = choose|rest: Seq<usize>| #[trigger] is_run(g, b, ts.drop_first(), rest) && r == next + run_log(g, ts.drop_first(), rest);
        let path = seq![b] + rest;
        assert(path.drop_first() =~= rest);
        assert(g.edges.contains((n, b))) by {
            lemma_targets(g.edges, n);
        }
        assert(is_run(g, n, ts, path));
        assert(r == log + run_log(g, ts, path)) by {
            match g.nodes[b as int].group {
                Some(name) => {
                    assert(log.push((name@, ts[0])) + run_log(g, ts.drop_first(), rest) =~= log + (seq![(name@, ts[0])] + run_log(g, ts.drop_first(), rest)));
                },
                None => {},
            }
        }
    }
}

/// Every result of a match accounts for each input token exactly once: it
/// comes from a path that consumes the tokens one by one along the edges of
/// the automaton, it holds exactly the tokens that path recorded, and those
/// tokens together with the steps that entered a node outside any group are
/// as many as the input tokens.
pub proof fn lemma_results_account_for_every_token(g: Automaton, ts: Seq<Seq<char>>, r: Log)
    requires
        match_results(g, ts).contains(r),
    ensures
        exists|path: Seq<usize>|
            #[trigger] is_run(g, 0, ts, path) && r == run_log(g, ts, path) && r.len()
                + ungrouped_steps(g, path) == ts.len(),
{
    if ts.len() == 0 {
        let path = Seq::<usize>::empty();
        assert(r == Seq::<(Seq<char>, Seq<char>)>::empty());
        assert(is_run(g, 0, ts, path));
        assert(r == run_log(g, ts, path));
        lemma_run_counts(g, ts, path);
        return;
    }
    lemma_dfs_sound(g, 0, ts, Seq::empty(), r);
    let path = choose|path: Seq<usize>| #[trigger] is_run(g, 0, ts, path) && r == Seq::<(Seq<char>, Seq<char>)>::empty() + run_log(g, ts, path);
    assert(Seq::<(Seq<char>, Seq<char>)>::empty() + run_log(g, ts, path) =~= run_log(g, ts, path));
    lemma_run_counts(g, ts, path);
}

proof fn lemma_upto_keeps(g: Automaton, n: usize, ts: Seq<Seq<char>>, log: Log, k: nat, j: nat, x: Log)
    requires
        ts.len() > 0,
        k < j <= targets_from(g.edges, n).len(),
        dfs_step(g, n, ts, log, k).contains(x),
    ensures
        dfs_upto(g, n, ts, log, j).contains(x),
    decreases j,
{
    let prev = dfs_upto(g, n, ts, log, (j - 1) as nat);
    let step = dfs_step(g, n, ts, log, (j - 1) as nat);
    assert(dfs_upto(g, n, ts, log, j) == prev + step);
    if k == j - 1 {
        let i = choose|i: int| 0 <= i < step.len() && step[i] == x;
        assert((prev + step)[prev.len() + i] == x);
    } else {
        lemma_upto_keeps(g, n, ts, log, k, (j - 1) as nat, x);
        let i = choose|i: int| 0 <= i < prev.len() && prev[i] == x;
        assert((prev + step)[i] == x);
    }
}

proof fn lemma_dfs_complete(g: Automaton, n: usize, ts: Seq<Seq<char>>, log: Log, path: Seq<usize>)
    requires
        is_run(g, n, ts, path),
    ensures
        dfs(g, n, ts, log).contains(log + run_log(g, ts, path)),
    decreases ts.len(),
{
    if ts.len() == 0 {
        assert(log + run_log(g, ts, path) =~= log);
        assert(dfs(g, n, ts, log)[0] == log);
    } else {
        let b = path[0];
        lemma_targets(g.edges, n);
        let k = choose|k: int| 0 <= k < targets_from(g.edges, n).len() && targets_from(g.edges, n)[k] == b;
        let next = extend(log, g.nodes[b as int].group, ts[0]);
        lemma_dfs_complete(g, b, ts.drop_first(), next, path.drop_first());
        let x = next + run_log(g, ts.drop_first(), path.drop_first());
        assert(x == log + run_log(g, ts, path)) by {
            match g.nodes[b as int].group {
                Some(name) => {
                    assert(log.push((name@, ts[0])) + run_log(g, ts.drop_first(), path.drop_first()) =~= log + (seq![(name@, ts[0])] + run_log(g, ts.drop_first(), path.drop_first())));
                },
                None => {},
            }
        }
        assert(dfs_step(g, n, ts, log, k as nat) == dfs(g, b, ts.drop_first(), next));
        lemma_upto_keeps(g, n, ts, log, k as nat, targets_from(g.edges, n).len(), x);
    }
}

/// Every way to consume all of a non-empty token sequence along the edges of
/// the automaton from its entry node gives a result: no parse is left out.
pub proof fn lemma_every_run_is_a_result(g: Automaton, ts: Seq<Seq<char>>, path: Seq<usize>)
    requires
        ts.len() > 0,
        is_run(g, 0, ts, path),
    ensures
        match_results(g, ts).contains(run_log(g, ts, path)),
{
    lemma_dfs_complete(g, 0, ts, Seq::empty(), path);
    assert(Seq::<(Seq<char>, Seq<char>)>::empty() + run_log(g, ts, path) =~= run_log(g, ts, path));
}

/// Matching no tokens yields exactly one result, the empty captures, where
/// the expression can match nothing (built from zero-or-more and optional
/// parts), and no result where it needs at least one token (a leaf, or one or
/// more repetitions of such a part).
pub proof fn lemma_empty_input_matches_when_nullable(e: Expr)
    ensures
        match_results(compiled(e), Seq::empty()) == if nullable(e) {
            seq![Seq::<(Seq<char>, Seq<char>)>::empty()]
        } else {
            Seq::<Seq<(Seq<char>, Seq<char>)>>::empty()
        },
{
}

/// Compiling the same expression twice gives automatons that produce the
/// same results on every input.
pub proof fn lemma_compile_is_deterministic(e: Expr, a: Automaton, b: Automaton, ts: Seq<Seq<char>>)
    requires
        a == compiled(e),
        b == compiled(e),
    ensures
        match_results(a, ts) == match_results(b, ts),
{
}

} // verus!
