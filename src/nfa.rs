use vstd::prelude::*;
use vstd::string::StringExecFns;

use crate::captures::Captures;
use crate::captures::string_views;
use crate::util::str_views;

verus! {

/// Whether `pattern` is accepted by the regex engine as a valid regular
/// expression.
pub uninterp spec fn regex_compiles(pattern: Seq<char>) -> bool;

/// Relies on `regex::Regex::new`: it succeeds exactly on valid patterns.
#[verifier::external_body]
fn regex_is_valid(pattern: &str) -> (r: bool)
    ensures
        r == regex_compiles(pattern@),
{
    regex::Regex::new(pattern).is_ok()
}

/// The text of capture group `i` of the leftmost match of `pattern` in
/// `token`; `None` where the pattern is invalid, does not match, or the group
/// took no part in the match. Group 0 is the whole match, so it is present
/// exactly when the pattern matches.
pub uninterp spec fn regex_group(pattern: Seq<char>, token: Seq<char>, i: nat) -> Option<Seq<char>>;

/// Relies on `regex::Regex::new`, `regex::Regex::captures` and
/// `regex::Captures::get`: the text of one capture group of the match.
#[verifier::external_body]
fn regex_captures_group(pattern: &str, token: &str, i: usize) -> (r: Option<String>)
    ensures
        match r {
            Some(t) => regex_group(pattern@, token@, i as nat) == Some(t@),
            None => regex_group(pattern@, token@, i as nat) is None,
        },
{
    match regex::Regex::new(pattern) {
        Err(_) => None,
        Ok(re) => match re.captures(token) {
            None => None,
            Some(c) => match c.get(i) {
                None => None,
                Some(m) => Some(m.as_str().to_string()),
            },
        },
    }
}

/// The regular expression `src` anchored at both ends, so that it can only
/// match a whole token.
pub open spec fn anchored(src: Seq<char>) -> Seq<char> {
    seq!['^', '(', '?', ':'] + src + seq![')', '$']
}

/// The text of capture group `i` where `src` matches the whole of `token`.
pub open spec fn whole_group(src: Seq<char>, token: Seq<char>, i: nat) -> Option<Seq<char>> {
    regex_group(anchored(src), token, i)
}

fn anchor(src: &str) -> (r: String)
    ensures
        r@ == anchored(src@),
{
    let mut a = String::new();
    a.append("^(?:");
    a.append(src);
    a.append(")$");
    proof {
        reveal_strlit("^(?:");
        reveal_strlit(")$");
        assert(a@ =~= anchored(src@));
    }
    a
}

/// The text of capture group `i` where the regular expression `src` matches
/// the whole of `token`.
pub fn whole_group_text(src: &str, token: &str, i: usize) -> (r: Option<String>)
    ensures
        match r {
            Some(t) => whole_group(src@, token@, i as nat) == Some(t@),
            None => whole_group(src@, token@, i as nat) is None,
        },
{
    let pattern = anchor(src);
    regex_captures_group(pattern.as_str(), token, i)
}

/// A test on a single token.
pub enum Pattern {
    /// Matches no token; used for the entry node of an automaton.
    DontMatch,
    /// Matches exactly this text.
    String(String),
    /// Matches a token that the regular expression matches as a whole.
    Regex(String),
}

/// Whether pattern `p` accepts the token `t`.
pub open spec fn accepts(p: Pattern, t: Seq<char>) -> bool {
    match p {
        Pattern::DontMatch => false,
        Pattern::String(s) => s@ == t,
        Pattern::Regex(src) => whole_group(src@, t, 0) is Some,
    }
}

impl Pattern {
    pub fn matches(&self, token: &str) -> (r: bool)
        ensures
            r == accepts(*self, token@),
    {
        match self {
            Pattern::DontMatch => false,
            Pattern::String(s) => {
                let t = token.to_owned();
                *s == t
            },
            Pattern::Regex(src) => whole_group_text(src.as_str(), token, 0).is_some(),
        }
    }

    pub fn duplicate(&self) -> (r: Pattern)
        ensures
            r == *self,
    {
        match self {
            Pattern::DontMatch => Pattern::DontMatch,
            Pattern::String(s) => Pattern::String(s.clone()),
            Pattern::Regex(s) => Pattern::Regex(s.clone()),
        }
    }
}

/// A pattern over token sequences, built from leaves by combinators.
pub enum Expr {
    Pattern(Pattern),
    Sequence(Vec<Expr>),
    /// Any one of the alternatives.
    Or(Vec<Expr>),
    /// Zero or more repetitions.
    Many0(Box<Expr>),
    /// One or more repetitions.
    Many1(Box<Expr>),
    /// Zero or one occurrence.
    Maybe(Box<Expr>),
    /// Every token matched inside is recorded under the group name.
    Capture(String, Box<Expr>),
}

/// Creates an expression that matches the given text.
pub fn string(s: &str) -> (r: Expr)
    ensures
        r matches Expr::Pattern(Pattern::String(t)) && t@ == s@,
{
    Expr::Pattern(Pattern::String(s.to_owned()))
}

/// Whether `s` is a valid regular expression that can also be anchored at
/// both ends, so that it is tested against whole tokens.
pub open spec fn valid_leaf(s: Seq<char>) -> bool {
    regex_compiles(s) && regex_compiles(anchored(s))
}

/// Creates an expression that matches a token that the regular expression
/// matches as a whole. An invalid regular expression is a construction
/// error, which `requires` leaves out; `try_regex` tests for it.
pub fn regex(s: &str) -> (r: Expr)
    requires
        valid_leaf(s@),
    ensures
        r matches Expr::Pattern(Pattern::Regex(t)) && t@ == s@,
{
    Expr::Pattern(Pattern::Regex(s.to_owned()))
}

/// Like `regex`, but returns `None` where the regular expression is invalid.
pub fn try_regex(s: &str) -> (r: Option<Expr>)
    ensures
        r is Some <==> valid_leaf(s@),
        r matches Some(e) ==> (e matches Expr::Pattern(Pattern::Regex(t)) && t@ == s@),
{
    let pattern = anchor(s);
    if regex_is_valid(s) && regex_is_valid(pattern.as_str()) {
        Some(regex(s))
    } else {
        None
    }
}

/// Creates an expression that matches a year: four digits.
pub fn year() -> (r: Expr)
    ensures
        is_regex(r, "\\d{4}"@),
{
    Expr::Pattern(Pattern::Regex("\\d{4}".to_owned()))
}

/// Whether `e` is the leaf that matches by the regular expression `src`.
pub open spec fn is_regex(e: Expr, src: Seq<char>) -> bool {
    e matches Expr::Pattern(Pattern::Regex(s)) && s@ == src
}

/// A leaf for a regular expression that is a known-good literal of this
/// library.
pub(crate) fn fixed_regex(src: &str) -> (r: Expr)
    ensures
        is_regex(r, src@),
{
    Expr::Pattern(Pattern::Regex(src.to_owned()))
}

/// Creates an expression that matches the expressions one after the other.
pub fn sequence(exprs: Vec<Expr>) -> (r: Expr)
    ensures
        r == Expr::Sequence(exprs),
{
    Expr::Sequence(exprs)
}

/// Creates an expression that matches any one of the expressions.
pub fn or(exprs: Vec<Expr>) -> (r: Expr)
    ensures
        r == Expr::Or(exprs),
{
    Expr::Or(exprs)
}

/// Creates an expression that matches zero or more times the inner expression.
pub fn many0(inner: Expr) -> (r: Expr)
    ensures
        r == Expr::Many0(Box::new(inner)),
{
    Expr::Many0(Box::new(inner))
}

/// Creates an expression that matches one or more times the inner expression.
pub fn many1(inner: Expr) -> (r: Expr)
    ensures
        r == Expr::Many1(Box::new(inner)),
{
    Expr::Many1(Box::new(inner))
}

/// Creates an expression that matches zero or one times the inner expression.
pub fn maybe(inner: Expr) -> (r: Expr)
    ensures
        r == Expr::Maybe(Box::new(inner)),
{
    Expr::Maybe(Box::new(inner))
}

/// Creates a capture group: every token matched inside of the inner
/// expression is recorded under `group`.
pub fn capture(group: &str, inner: Expr) -> (r: Expr)
    ensures
        r matches Expr::Capture(g, b) && g@ == group@ && *b == inner,
{
    Expr::Capture(group.to_owned(), Box::new(inner))
}

/// A node of the automaton: the test on the token that enters it, and the
/// group that records such a token, if any.
pub struct Node {
    pub pattern: Pattern,
    pub group: Option<String>,
}

/// The automaton as a value: its nodes, and its edges in insertion order.
/// Node 0 is the entry node.
pub struct Automaton {
    pub nodes: Seq<Node>,
    pub edges: Seq<(usize, usize)>,
    /// Whether the empty token sequence matches: the expression compiled
    /// can match zero tokens.
    pub accepts_empty: bool,
}

/// Every edge joins two existing nodes, and the entry node exists.
pub open spec fn wf(g: Automaton) -> bool {
    &&& g.nodes.len() >= 1
    &&& forall|k: int|
        0 <= k < g.edges.len() ==> (#[trigger] g.edges[k]).0 < g.nodes.len() && g.edges[k].1
            < g.nodes.len()
}

/// Every node of `ids` exists in `g`.
pub open spec fn all_below(ids: Seq<usize>, n: nat) -> bool {
    forall|k: int| 0 <= k < ids.len() ==> #[trigger] ids[k] < n
}

/// Adds the edge `a -> b` unless it is there already, or is a self-edge
/// where `loops` does not allow one.
pub open spec fn add_edge(g: Automaton, a: usize, b: usize, loops: bool) -> Automaton {
    if (loops || a != b) && !g.edges.contains((a, b)) {
        Automaton { nodes: g.nodes, edges: g.edges.push((a, b)), accepts_empty: g.accepts_empty }
    } else {
        g
    }
}

/// Connects `a` to each node of `to`, in order.
pub open spec fn connect_row(g: Automaton, a: usize, to: Seq<usize>, loops: bool) -> Automaton
    decreases to.len(),
{
    if to.len() == 0 {
        g
    } else {
        add_edge(connect_row(g, a, to.drop_last(), loops), a, to.last(), loops)
    }
}

/// Connects each node of `from` to each node of `to`, row by row.
pub open spec fn connect(g: Automaton, from: Seq<usize>, to: Seq<usize>, loops: bool) -> Automaton
    decreases from.len(),
{
    if from.len() == 0 {
        g
    } else {
        connect_row(connect(g, from.drop_last(), to, loops), from.last(), to, loops)
    }
}

/// The graph extended by the construction of `e` after the nodes `preds`,
/// and the nodes from which whatever follows `e` is entered.
pub open spec fn build(g: Automaton, preds: Seq<usize>, e: Expr, group: Option<String>) -> (Automaton, Seq<usize>)
    decreases e,
{
    match e {
        Expr::Pattern(p) => {
            let id = g.nodes.len() as usize;
            let g1 = Automaton {
                nodes: g.nodes.push(Node { pattern: p, group }),
                edges: g.edges,
                accepts_empty: g.accepts_empty,
            };
            (connect(g1, preds, seq![id], false), seq![id])
        },
        Expr::Sequence(v) => build_seq(g, preds, v@, group),
        Expr::Or(v) => build_or(g, preds, v@, group),
        Expr::Many0(inner) => {
            let (g1, f) = build(g, preds, *inner, group);
            (connect(g1, f, f, true), f + preds)
        },
        Expr::Many1(inner) => {
            let (g1, f) = build(g, preds, *inner, group);
            (connect(g1, f, f, true), f)
        },
        Expr::Maybe(inner) => {
            let (g1, f) = build(g, preds, *inner, group);
            (g1, f + preds)
        },
        Expr::Capture(name, inner) => build(g, preds, *inner, Some(name)),
    }
}

/// The construction of the expressions one after the other.
pub open spec fn build_seq(g: Automaton, preds: Seq<usize>, es: Seq<Expr>, group: Option<String>) -> (Automaton, Seq<usize>)
    decreases es,
{
    if es.len() == 0 {
        (g, preds)
    } else {
        let (g1, f1) = build_seq(g, preds, es.subrange(0, es.len() - 1), group);
        build(g1, f1, es[es.len() - 1], group)
    }
}

/// The construction of the alternatives, each after the same nodes `preds`.
pub open spec fn build_or(g: Automaton, preds: Seq<usize>, es: Seq<Expr>, group: Option<String>) -> (Automaton, Seq<usize>)
    decreases es,
{
    if es.len() == 0 {
        (g, Seq::empty())
    } else {
        let (g1, f1) = build_or(g, preds, es.subrange(0, es.len() - 1), group);
        let (g2, f2) = build(g1, preds, es[es.len() - 1], group);
        (g2, f1 + f2)
    }
}

/// The graph that holds only the entry node.
pub open spec fn entry_graph() -> Automaton {
    Automaton {
        nodes: seq![Node { pattern: Pattern::DontMatch, group: None }],
        edges: Seq::empty(),
        accepts_empty: false,
    }
}

/// Whether the expression can match the empty token sequence: a leaf needs
/// a token, a sequence needs all its parts to match nothing, an alternation
/// one of its branches, repetition of zero or more and an optional part match
/// nothing, and one or more repetitions or a capture match nothing where
/// their inner expression does.
pub open spec fn nullable(e: Expr) -> bool
    decreases e,
{
    match e {
        Expr::Pattern(_) => false,
        Expr::Sequence(v) => all_nullable(v@),
        Expr::Or(v) => any_nullable(v@),
        Expr::Many0(_) => true,
        Expr::Many1(inner) => nullable(*inner),
        Expr::Maybe(_) => true,
        Expr::Capture(_, inner) => nullable(*inner),
    }
}

/// Whether every expression can match the empty token sequence.
pub open spec fn all_nullable(es: Seq<Expr>) -> bool
    decreases es,
{
    if es.len() == 0 {
        true
    } else {
        all_nullable(es.subrange(0, es.len() - 1)) && nullable(es[es.len() - 1])
    }
}

/// Whether some expression can match the empty token sequence.
pub open spec fn any_nullable(es: Seq<Expr>) -> bool
    decreases es,
{
    if es.len() == 0 {
        false
    } else {
        any_nullable(es.subrange(0, es.len() - 1)) || nullable(es[es.len() - 1])
    }
}

/// Whether the expression can match the empty token sequence.
pub fn is_nullable(e: &Expr) -> (r: bool)
    ensures
        r == nullable(*e),
    decreases e,
{
    match e {
        Expr::Pattern(_) => false,
        Expr::Sequence(v) => {
            let mut all = true;
            let mut i: usize = 0;
            assert(v@.subrange(0, 0) =~= Seq::<Expr>::empty());
            while i < v.len()
                invariant
                    0 <= i <= v@.len(),
                    *e == Expr::Sequence(*v),
                    all == all_nullable(v@.subrange(0, i as int)),
                decreases v@.len() - i,
            {
                let ghost sub = v@.subrange(0, i as int + 1);
                assert(sub.subrange(0, sub.len() - 1) =~= v@.subrange(0, i as int));
                assert(sub[sub.len() - 1] == v@[i as int]);
                proof {
                    assert(decreases_to!(*e => (*e)->Sequence_0));
                    assert(decreases_to!(*v => v[i as int]));
                }
                let n = is_nullable(&v[i]);
                all = all && n;
                i = i + 1;
            }
            assert(v@.subrange(0, i as int) =~= v@);
            all
        },
        Expr::Or(v) => {
            let mut any = false;
            let mut i: usize = 0;
            assert(v@.subrange(0, 0) =~= Seq::<Expr>::empty());
            while i < v.len()
                invariant
                    0 <= i <= v@.len(),
                    *e == Expr::Or(*v),
                    any == any_nullable(v@.subrange(0, i as int)),
                decreases v@.len() - i,
            {
                let ghost sub = v@.subrange(0, i as int + 1);
                assert(sub.subrange(0, sub.len() - 1) =~= v@.subrange(0, i as int));
                assert(sub[sub.len() - 1] == v@[i as int]);
                proof {
                    assert(decreases_to!(*e => (*e)->Or_0));
                    assert(decreases_to!(*v => v[i as int]));
                }
                let n = is_nullable(&v[i]);
                any = any || n;
                i = i + 1;
            }
            assert(v@.subrange(0, i as int) =~= v@);
            any
        },
        Expr::Many0(_) => true,
        Expr::Many1(inner) => is_nullable(inner),
        Expr::Maybe(_) => true,
        Expr::Capture(_, inner) => is_nullable(inner),
    }
}

/// The automaton compiled from `e`.
pub open spec fn compiled(e: Expr) -> Automaton {
    let g = build(entry_graph(), seq![0usize], e, None).0;
    Automaton { nodes: g.nodes, edges: g.edges, accepts_empty: nullable(e) }
}

/// The shape of an automaton: its nodes by index and its edges.
pub type Topology = petgraph::graph::DiGraph<(), (), usize>;

#[verifier::external_type_specification]
#[verifier::external_body]
#[verifier::reject_recursive_types(N)]
#[verifier::reject_recursive_types(E)]
#[verifier::reject_recursive_types(Ty)]
#[verifier::reject_recursive_types(Ix)]
pub struct ExGraph<N, E, Ty, Ix>(petgraph::graph::Graph<N, E, Ty, Ix>);

#[verifier::external_type_specification]
#[verifier::external_body]
pub struct ExDirected(petgraph::Directed);

/// The number of nodes of a topology.
pub uninterp spec fn topology_size(g: Topology) -> nat;

/// The edges of a topology, in the order they were added.
pub uninterp spec fn topology_edges(g: Topology) -> Seq<(usize, usize)>;

/// The targets of the edges out of `n`, the most recently added first.
pub open spec fn targets_from(edges: Seq<(usize, usize)>, n: usize) -> Seq<usize>
    decreases edges.len(),
{
    if edges.len() == 0 {
        Seq::empty()
    } else {
        let rest = targets_from(edges.drop_last(), n);
        if edges.last().0 == n {
            seq![edges.last().1] + rest
        } else {
            rest
        }
    }
}

/// The successors of `n` are exactly the targets of the edges out of `n`.
pub proof fn lemma_targets(edges: Seq<(usize, usize)>, n: usize)
    ensures
        forall|j: int|
            0 <= j < targets_from(edges, n).len() ==> edges.contains((n, #[trigger] targets_from(edges, n)[j])),
        forall|b: usize|
            #[trigger] edges.contains((n, b)) ==> exists|j: int|
                0 <= j < targets_from(edges, n).len() && targets_from(edges, n)[j] == b,
    decreases edges.len(),
{
    if edges.len() > 0 {
        let init = edges.drop_last();
        lemma_targets(init, n);
        let t = targets_from(edges, n);
        let ti = targets_from(init, n);
        assert forall|j: int| 0 <= j < t.len() implies edges.contains((n, #[trigger] t[j])) by {
            if edges.last().0 == n {
                if j == 0 {
                    assert(edges[edges.len() - 1] == (n, t[0]));
                } else {
                    assert(t[j] == ti[j - 1]);
                    let k = choose|k: int| 0 <= k < init.len() && init[k] == (n, ti[j - 1]);
                    assert(edges[k] == init[k]);
                }
            } else {
                assert(t[j] == ti[j]);
                let k = choose|k: int| 0 <= k < init.len() && init[k] == (n, ti[j]);
                assert(edges[k] == init[k]);
            }
        }
        assert forall|b: usize| #[trigger] edges.contains((n, b)) implies exists|j: int|
            0 <= j < t.len() && t[j] == b by {
            let k = choose|k: int| 0 <= k < edges.len() && edges[k] == (n, b);
            if k == edges.len() - 1 {
                assert(t[0] == b);
            } else {
                assert(init[k] == (n, b));
                assert(init.contains((n, b)));
                let j = choose|j: int| 0 <= j < ti.len() && ti[j] == b;
                if edges.last().0 == n {
                    assert(t[j + 1] == b);
                } else {
                    assert(t[j] == b);
                }
            }
        }
    }
}

/// Relies on `petgraph::graph::Graph::with_capacity`: a graph without nodes
/// or edges.
#[verifier::external_body]
fn topology_new() -> (g: Topology)
    ensures
        topology_size(g) == 0,
        topology_edges(g) == Seq::<(usize, usize)>::empty(),
{
    Topology::with_capacity(0, 0)
}

/// Relies on `petgraph::graph::Graph::add_node`: the new node takes the next
/// index; with `usize` indices there is no limit that makes it panic.
#[verifier::external_body]
fn topology_add_node(g: &mut Topology) -> (r: usize)
    ensures
        r == topology_size(*old(g)),
        topology_size(*final(g)) == topology_size(*old(g)) + 1,
        topology_edges(*final(g)) == topology_edges(*old(g)),
{
    g.add_node(()).index()
}

/// Relies on `petgraph::graph::Graph::add_edge`: the edge is added after the
/// others. It panics on a node that does not exist, which `requires` leaves
/// out.
#[verifier::external_body]
fn topology_add_edge(g: &mut Topology, a: usize, b: usize)
    requires
        a < topology_size(*old(g)),
        b < topology_size(*old(g)),
    ensures
        topology_size(*final(g)) == topology_size(*old(g)),
        topology_edges(*final(g)) == topology_edges(*old(g)).push((a, b)),
{
    g.add_edge(petgraph::graph::NodeIndex::new(a), petgraph::graph::NodeIndex::new(b), ());
}

/// Relies on `petgraph::graph::Graph::contains_edge`: whether there is an
/// edge from `a` to `b`.
#[verifier::external_body]
fn topology_has_edge(g: &Topology, a: usize, b: usize) -> (r: bool)
    ensures
        r == topology_edges(*g).contains((a, b)),
{
    g.contains_edge(petgraph::graph::NodeIndex::new(a), petgraph::graph::NodeIndex::new(b))
}

/// Relies on `petgraph::graph::Graph::neighbors`: on a directed graph, the
/// targets of the edges out of `n`, in reverse order of their addition.
#[verifier::external_body]
fn topology_neighbors(g: &Topology, n: usize) -> (r: Vec<usize>)
    ensures
        r@ == targets_from(topology_edges(*g), n),
{
    let mut out = Vec::new();
    for m in g.neighbors(petgraph::graph::NodeIndex::new(n)) {
        out.push(m.index());
    }
    out
}

struct Builder {
    nodes: Vec<Node>,
    graph: Topology,
}

impl View for Builder {
    type V = Automaton;

    closed spec fn view(&self) -> Automaton {
        Automaton { nodes: self.nodes@, edges: topology_edges(self.graph), accepts_empty: false }
    }
}

fn clone_group(g: &Option<String>) -> (r: Option<String>)
    ensures
        r == *g,
{
    match g {
        None => None,
        Some(s) => Some(s.clone()),
    }
}

impl Builder {
    spec fn sized(&self) -> bool {
        topology_size(self.graph) == self.nodes@.len()
    }

    fn add_edge(&mut self, a: usize, b: usize, loops: bool)
        requires
            old(self).sized(),
            a < old(self)@.nodes.len(),
            b < old(self)@.nodes.len(),
        ensures
            final(self)@ == add_edge(old(self)@, a, b, loops),
            final(self).sized(),
    {
        if (loops || a != b) && !topology_has_edge(&self.graph, a, b) {
            topology_add_edge(&mut self.graph, a, b);
        }
    }

    fn connect(&mut self, from: &Vec<usize>, to: &Vec<usize>, loops: bool)
        requires
            old(self).sized(),
            wf(old(self)@),
            all_below(from@, old(self)@.nodes.len()),
            all_below(to@, old(self)@.nodes.len()),
        ensures
            final(self)@ == connect(old(self)@, from@, to@, loops),
            final(self)@.nodes == old(self)@.nodes,
            wf(final(self)@),
            final(self).sized(),
    {
        let ghost g0 = self@;
        let mut i: usize = 0;
        while i < from.len()
            invariant
                0 <= i <= from@.len(),
                self@ == connect(g0, from@.subrange(0, i as int), to@, loops),
                self@.nodes == g0.nodes,
                wf(self@),
                self.sized(),
                all_below(from@, g0.nodes.len()),
                all_below(to@, g0.nodes.len()),
            decreases from@.len() - i,
        {
            let a = from[i];
            let ghost row_start = self@;
            let mut j: usize = 0;
            while j < to.len()
                invariant
                    0 <= i < from@.len(),
                    a == from@[i as int],
                    0 <= j <= to@.len(),
                    self@ == connect_row(row_start, a, to@.subrange(0, j as int), loops),
                    self@.nodes == g0.nodes,
                    wf(self@),
                    self.sized(),
                    all_below(from@, g0.nodes.len()),
                    all_below(to@, g0.nodes.len()),
                decreases to@.len() - j,
            {
                let ghost before = self@;
                assert(to@[j as int] < g0.nodes.len());
                self.add_edge(a, to[j], loops);
                assert(to@.subrange(0, j as int + 1).drop_last() =~= to@.subrange(0, j as int));
                assert(wf(self@)) by {
                    assert forall|k: int| 0 <= k < self@.edges.len() implies (#[trigger] self@.edges[k]).0
                        < self@.nodes.len() && self@.edges[k].1 < self@.nodes.len() by {
                        if k < before.edges.len() {
                            assert(self@.edges[k] == before.edges[k]);
                        }
                    }
                }
                j = j + 1;
            }
            assert(to@.subrange(0, j as int) =~= to@);
            assert(from@.subrange(0, i as int + 1).drop_last() =~= from@.subrange(0, i as int));
            i = i + 1;
        }
        assert(from@.subrange(0, i as int) =~= from@);
    }

    fn build(&mut self, preds: &Vec<usize>, e: &Expr, group: &Option<String>) -> (r: Vec<usize>)
        requires
            old(self).sized(),
            wf(old(self)@),
            all_below(preds@, old(self)@.nodes.len()),
        ensures
            (final(self)@, r@) == build(old(self)@, preds@, *e, *group),
            wf(final(self)@),
            final(self).sized(),
            final(self)@.nodes.len() >= old(self)@.nodes.len(),
            all_below(r@, final(self)@.nodes.len()),
        decreases e,
    {
        match e {
            Expr::Pattern(p) => {
                let id = topology_add_node(&mut self.graph);
                self.nodes.push(Node { pattern: p.duplicate(), group: clone_group(group) });
                let mut ids: Vec<usize> = Vec::new();
                ids.push(id);
                assert(ids@ =~= seq![id]);
                self.connect(preds, &ids, false);
                ids
            },
            Expr::Sequence(v) => {
                let ghost g0 = self@;
                let mut f: Vec<usize> = Vec::new();
                let mut k: usize = 0;
                while k < preds.len()
                    invariant
                        0 <= k <= preds@.len(),
                        f@ == preds@.subrange(0, k as int),
                    decreases preds@.len() - k,
                {
                    f.push(preds[k]);
                    assert(f@ =~= preds@.subrange(0, k as int + 1));
                    k = k + 1;
                }
                assert(preds@.subrange(0, k as int) =~= preds@);
                assert(v@.subrange(0, 0) =~= Seq::<Expr>::empty());
                let mut i: usize = 0;
                while i < v.len()
                    invariant
                        0 <= i <= v@.len(),
                        (self@, f@) == build_seq(g0, preds@, v@.subrange(0, i as int), *group),
                        *e == Expr::Sequence(*v),
                        wf(self@),
                        self.sized(),
                        self@.nodes.len() >= g0.nodes.len(),
                        all_below(f@, self@.nodes.len()),
                    decreases v@.len() - i,
                {
                    let ghost sub = v@.subrange(0, i as int + 1);
                    assert(sub.subrange(0, sub.len() - 1) =~= v@.subrange(0, i as int));
                    assert(sub[sub.len() - 1] == v@[i as int]);
                    proof {
                        assert(decreases_to!(*e => (*e)->Sequence_0));
                        assert(decreases_to!(*v => v[i as int]));
                    }
                    f = self.build(&f, &v[i], group);
                    i = i + 1;
                }
                assert(v@.subrange(0, i as int) =~= v@);
                f
            },
            Expr::Or(v) => {
                let ghost g0 = self@;
                let mut f: Vec<usize> = Vec::new();
                assert(v@.subrange(0, 0) =~= Seq::<Expr>::empty());
                let mut i: usize = 0;
                while i < v.len()
                    invariant
                        0 <= i <= v@.len(),
                        (self@, f@) == build_or(g0, preds@, v@.subrange(0, i as int), *group),
                        *e == Expr::Or(*v),
                        wf(self@),
                        self.sized(),
                        self@.nodes.len() >= g0.nodes.len(),
                        all_below(f@, self@.nodes.len()),
                        all_below(preds@, g0.nodes.len()),
                    decreases v@.len() - i,
                {
                    let ghost sub = v@.subrange(0, i as int + 1);
                    assert(sub.subrange(0, sub.len() - 1) =~= v@.subrange(0, i as int));
                    assert(sub[sub.len() - 1] == v@[i as int]);
                    let ghost f_before = f@;
                    proof {
                        assert(decreases_to!(*e => (*e)->Or_0));
                        assert(decreases_to!(*v => v[i as int]));
                    }
                    let mut branch = self.build(preds, &v[i], group);
                    f.append(&mut branch);
                    assert(f@ =~= f_before + build(build_or(g0, preds@, v@.subrange(0, i as int), *group).0, preds@, v@[i as int], *group).1);
                    i = i + 1;
                }
                assert(v@.subrange(0, i as int) =~= v@);
                f
            },
            Expr::Many0(inner) => {
                let mut f = self.build(preds, inner, group);
                self.connect(&f, &f, true);
                let mut k: usize = 0;
                let ghost f0 = f@;
                while k < preds.len()
                    invariant
                        0 <= k <= preds@.len(),
                        f@ == f0 + preds@.subrange(0, k as int),
                    decreases preds@.len() - k,
                {
                    f.push(preds[k]);
                    assert(f@ =~= f0 + preds@.subrange(0, k as int + 1));
                    k = k + 1;
                }
                assert(preds@.subrange(0, k as int) =~= preds@);
                f
            },
            Expr::Many1(inner) => {
                let f = self.build(preds, inner, group);
                self.connect(&f, &f, true);
                f
            },
            Expr::Maybe(inner) => {
                let mut f = self.build(preds, inner, group);
                let mut k: usize = 0;
                let ghost f0 = f@;
                while k < preds.len()
                    invariant
                        0 <= k <= preds@.len(),
                        f@ == f0 + preds@.subrange(0, k as int),
                    decreases preds@.len() - k,
                {
                    f.push(preds[k]);
                    assert(f@ =~= f0 + preds@.subrange(0, k as int + 1));
                    k = k + 1;
                }
                assert(preds@.subrange(0, k as int) =~= preds@);
                f
            },
            Expr::Capture(name, inner) => {
                let inner_group = Some(name.clone());
                self.build(preds, inner, &inner_group)
            },
        }
    }
}

/// A log of (group, token) pairs, in the order the tokens were consumed.
pub type Log = Seq<(Seq<char>, Seq<char>)>;

/// The log after a token entered a node of group `group`.
pub open spec fn extend(log: Log, group: Option<String>, t: Seq<char>) -> Log {
    match group {
        Some(name) => log.push((name@, t)),
        None => log,
    }
}

/// Every result of the exhaustive search from node `n` over the tokens `ts`,
/// having recorded `log` so far: the edges out of `n` are tried most recently
/// added first.
pub open spec fn dfs(g: Automaton, n: usize, ts: Seq<Seq<char>>, log: Log) -> Seq<Log>
    decreases ts.len(), targets_from(g.edges, n).len() + 1,
{
    if ts.len() == 0 {
        seq![log]
    } else {
        dfs_upto(g, n, ts, log, targets_from(g.edges, n).len())
    }
}

/// The results of the search from `n` through its first `j` successors.
pub open spec fn dfs_upto(g: Automaton, n: usize, ts: Seq<Seq<char>>, log: Log, j: nat) -> Seq<Log>
    decreases ts.len(), j,
{
    if j == 0 || ts.len() == 0 || j > targets_from(g.edges, n).len() {
        Seq::empty()
    } else {
        dfs_upto(g, n, ts, log, (j - 1) as nat) + dfs_step(g, n, ts, log, (j - 1) as nat)
    }
}

/// The results of the search from `n` that go on to its `k`-th successor.
pub open spec fn dfs_step(g: Automaton, n: usize, ts: Seq<Seq<char>>, log: Log, k: nat) -> Seq<Log>
    decreases ts.len(), 0nat,
{
    let succ = targets_from(g.edges, n);
    if ts.len() == 0 || k >= succ.len() {
        Seq::empty()
    } else {
        let b = succ[k as int];
        if b < g.nodes.len() && accepts(g.nodes[b as int].pattern, ts[0]) {
            dfs(g, b, ts.drop_first(), extend(log, g.nodes[b as int].group, ts[0]))
        } else {
            Seq::empty()
        }
    }
}

/// The results of matching the tokens `ts` against the automaton `g`.
pub open spec fn match_results(g: Automaton, ts: Seq<Seq<char>>) -> Seq<Log> {
    if ts.len() == 0 {
        if g.accepts_empty {
            seq![Seq::empty()]
        } else {
            Seq::empty()
        }
    } else {
        dfs(g, 0, ts, Seq::empty())
    }
}

/// The views of a vector of captures.
pub open spec fn logs(v: Seq<Captures>) -> Seq<Log> {
    v.map_values(|c: Captures| c@)
}

/// The label of a node in the graph drawing: its text or `/regex/`, `start`
/// for the entry node, followed by its group in parentheses.
pub open spec fn node_label(n: Node) -> Seq<char> {
    let base = match n.pattern {
        Pattern::DontMatch => "start"@,
        Pattern::String(s) => s@,
        Pattern::Regex(src) => seq!['/'] + src@ + seq!['/'],
    };
    match n.group {
        Some(g) => base + seq![' ', '('] + g@ + seq![')'],
        None => base,
    }
}

/// The labels of the nodes, in order.
pub open spec fn node_labels(nodes: Seq<Node>) -> Seq<Seq<char>> {
    nodes.map_values(|n: Node| node_label(n))
}

/// The drawing, in the graphviz language, of a graph with the given node
/// labels and edges.
pub uninterp spec fn dot_of(labels: Seq<Seq<char>>, edges: Seq<(usize, usize)>) -> Seq<char>;

/// Relies on `petgraph::graph::Graph::map` and `petgraph::dot::Dot`: the
/// graph with each node labelled, drawn without edge labels.
#[verifier::external_body]
fn dot_text(labels: &Vec<String>, g: &Topology) -> (r: String)
    requires
        labels@.len() == topology_size(*g),
    ensures
        r@ == dot_of(string_views(labels@), topology_edges(*g)),
{
    let drawn = g.map(|i, _| labels[i.index()].as_str(), |_, _| "");
    format!("{}", petgraph::dot::Dot::with_config(&drawn, &[petgraph::dot::Config::EdgeNoLabel]))
}

fn label_of(n: &Node) -> (r: String)
    ensures
        r@ == node_label(*n),
{
    let mut out = String::new();
    match &n.pattern {
        Pattern::DontMatch => {
            out.append("start");
        },
        Pattern::String(s) => {
            out.append(s.as_str());
        },
        Pattern::Regex(src) => {
            out.append("/");
            out.append(src.as_str());
            out.append("/");
        },
    }
    match &n.group {
        Some(g) => {
            out.append(" (");
            out.append(g.as_str());
            out.append(")");
        },
        None => {},
    }
    proof {
        reveal_strlit("start");
        reveal_strlit("/");
        reveal_strlit(" (");
        reveal_strlit(")");
        assert(out@ =~= node_label(*n));
    }
    out
}

/// A compiled automaton; it is never changed after construction.
pub struct Matcher {
    nodes: Vec<Node>,
    graph: Topology,
    nullable: bool,
}

impl View for Matcher {
    type V = Automaton;

    closed spec fn view(&self) -> Automaton {
        Automaton { nodes: self.nodes@, edges: topology_edges(self.graph), accepts_empty: self.nullable }
    }
}

impl Matcher {
    #[verifier::type_invariant]
    spec fn inv(self) -> bool {
        wf(Automaton { nodes: self.nodes@, edges: topology_edges(self.graph), accepts_empty: self.nullable })
            && topology_size(self.graph)
            == self.nodes@.len()
    }

    /// Compiles the expression into an automaton.
    pub fn new(root: Expr) -> (r: Matcher)
        ensures
            r@ == compiled(root),
            wf(r@),
    {
        let mut b = Builder { nodes: Vec::new(), graph: topology_new() };
        let _ = topology_add_node(&mut b.graph);
        b.nodes.push(Node { pattern: Pattern::DontMatch, group: None });
        let mut preds: Vec<usize> = Vec::new();
        preds.push(0);
        assert(b@ == entry_graph());
        assert(preds@ =~= seq![0usize]);
        let none: Option<String> = None;
        let nullable = is_nullable(&root);
        let _ = b.build(&preds, &root, &none);
        let ghost g = b@;
        let ghost m = Automaton { nodes: g.nodes, edges: g.edges, accepts_empty: nullable };
        assert(wf(m)) by {
            assert forall|k: int| 0 <= k < m.edges.len() implies (#[trigger] m.edges[k]).0 < m.nodes.len()
                && m.edges[k].1 < m.nodes.len() by {
                assert(g.edges[k] == m.edges[k]);
            }
        }
        Matcher { nodes: b.nodes, graph: b.graph, nullable }
    }

    fn search(&self, n: usize, tokens: &[&str], pos: usize, caps: &Captures, results: &mut Vec<Captures>)
        requires
            wf(self@),
            n < self@.nodes.len(),
            pos <= tokens@.len(),
        ensures
            logs(final(results)@) == logs(old(results)@) + dfs(
                self@,
                n,
                str_views(tokens@).subrange(pos as int, tokens@.len() as int),
                caps@,
            ),
        decreases tokens@.len() - pos,
    {
        let ghost ts = str_views(tokens@).subrange(pos as int, tokens@.len() as int);
        let ghost start = results@;
        if pos == tokens.len() {
            results.push(caps.duplicate());
            assert(logs(results@) =~= logs(start) + seq![caps@]);
            return;
        }
        let token = tokens[pos];
        let next_pos = pos + 1;
        assert(ts[0] == token@);
        assert(ts.drop_first() =~= str_views(tokens@).subrange(pos + 1, tokens@.len() as int));
        let succ = topology_neighbors(&self.graph, n);
        proof {
            lemma_targets(self@.edges, n);
            assert forall|k: int| 0 <= k < succ@.len() implies #[trigger] succ@[k] < self@.nodes.len() by {
                let e = choose|e: int| 0 <= e < self@.edges.len() && self@.edges[e] == (n, succ@[k]);
                assert(self@.edges[e].1 < self@.nodes.len());
            }
        }
        let mut j: usize = 0;
        assert(logs(results@) =~= logs(start) + dfs_upto(self@, n, ts, caps@, 0));
        while j < succ.len()
            invariant
                wf(self@),
                pos < tokens@.len(),
                next_pos == pos + 1,
                token == tokens@[pos as int],
                ts == str_views(tokens@).subrange(pos as int, tokens@.len() as int),
                ts[0] == token@,
                ts.drop_first() =~= str_views(tokens@).subrange(pos + 1, tokens@.len() as int),
                succ@ == targets_from(self@.edges, n),
                forall|k: int| 0 <= k < succ@.len() ==> #[trigger] succ@[k] < self@.nodes.len(),
                0 <= j <= succ@.len(),
                logs(results@) == logs(start) + dfs_upto(self@, n, ts, caps@, j as nat),
            decreases succ@.len() - j,
        {
            let b = succ[j];
            let ghost before = results@;
            if self.nodes[b].pattern.matches(token) {
                let node = &self.nodes[b];
                let next = match &node.group {
                    Some(name) => caps.add_to_group(name.as_str(), token),
                    None => caps.duplicate(),
                };
                assert(next@ == extend(caps@, node.group, ts[0]));
                self.search(b, tokens, next_pos, &next, results);
                assert(dfs_step(self@, n, ts, caps@, j as nat) == dfs(self@, b, ts.drop_first(), next@));
                assert(logs(results@) == logs(before) + dfs_step(self@, n, ts, caps@, j as nat));
            } else {
                assert(dfs_step(self@, n, ts, caps@, j as nat) == Seq::<Log>::empty());
                assert(logs(results@) =~= logs(before) + dfs_step(self@, n, ts, caps@, j as nat));
            }
            assert(dfs_upto(self@, n, ts, caps@, j as nat + 1) == dfs_upto(self@, n, ts, caps@, j as nat) + dfs_step(self@, n, ts, caps@, j as nat));
            assert(logs(results@) =~= logs(start) + dfs_upto(self@, n, ts, caps@, j as nat + 1));
            j = j + 1;
        }
    }

    /// The automaton drawn in the graphviz language, for inspection.
    pub fn graphviz(&self) -> (r: String)
        ensures
            r@ == dot_of(node_labels(self@.nodes), self@.edges),
    {
        let mut labels: Vec<String> = Vec::new();
        let mut i: usize = 0;
        while i < self.nodes.len()
            invariant
                0 <= i <= self.nodes@.len(),
                labels@.len() == i,
                string_views(labels@) == node_labels(self.nodes@).subrange(0, i as int),
            decreases self.nodes@.len() - i,
        {
            let ghost before = labels@;
            labels.push(label_of(&self.nodes[i]));
            assert(string_views(labels@) =~= node_labels(self.nodes@).subrange(0, i as int + 1)) by {
                assert forall|k: int| 0 <= k < i implies string_views(labels@)[k] == string_views(before)[k] by {
                    assert(labels@[k] == before[k]);
                }
            }
            i = i + 1;
        }
        assert(node_labels(self.nodes@).subrange(0, i as int) =~= node_labels(self.nodes@));
        proof {
            use_type_invariant(self);
        }
        dot_text(&labels, &self.graph)
    }

    /// Matches the tokens against this automaton: every way to consume all of
    /// them along its edges gives one result.
    pub fn captures(&self, tokens: &[&str]) -> (r: Vec<Captures>)
        ensures
            logs(r@) == match_results(self@, str_views(tokens@)),
    {
        proof {
            use_type_invariant(self);
        }
        let mut results: Vec<Captures> = Vec::new();
        let caps = Captures::new();
        if tokens.len() == 0 {
            if self.nullable {
                results.push(caps);
                assert(logs(results@) =~= match_results(self@, str_views(tokens@)));
            } else {
                assert(logs(results@) =~= match_results(self@, str_views(tokens@)));
            }
            return results;
        }
        self.search(0, tokens, 0, &caps, &mut results);
        assert(str_views(tokens@).subrange(0, tokens@.len() as int) =~= str_views(tokens@));
        assert(logs(Seq::<Captures>::empty()) + match_results(self@, str_views(tokens@)) =~= match_results(self@, str_views(tokens@)));
        results
    }
}

} // verus!
