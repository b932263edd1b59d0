//! The node graph and the order in which its nodes are evaluated.
//!
//! An edge names its consumer `source` and its producer `target`: the
//! value that the producer gives under `target_handle` becomes the
//! consumer's input `source_handle`.
//!
//! The walk decides which nodes run, in which order, and where each input
//! of a node comes from. It does not touch the values themselves: a plan
//! names them by the node and handle that give them.

use vstd::prelude::*;
use vstd::string::*;
use crate::text::{chars_of, string_of};

verus! {

/// What can go wrong while a graph is walked.
#[derive(Clone, Copy, Debug, PartialEq, Eq, Structural)]
pub enum GraphError {
    /// The walk came back to a node that waits for its producers, with
    /// nothing done in between; or it went deeper than any walk of a graph
    /// without a cycle does.
    GraphCycle,
    /// An edge or a request names a node that the graph does not have.
    UnknownNode,
    /// A node lacks an input that it cannot do without.
    MissingInput,
}

/// A node of the graph.
#[derive(Clone, Debug)]
pub struct GraphNode {
    pub id: String,
    /// Whether the node runs in a realtime evaluation.
    pub realtime: bool,
    /// The handles for which the node carries a value of its own, in order.
    pub inputs: Vec<String>,
}

/// An edge of the graph.
#[derive(Clone, Debug)]
pub struct GraphEdge {
    /// The id of the consumer.
    pub source: String,
    /// The id of the producer.
    pub target: String,
    /// The consumer's input that the edge feeds.
    pub source_handle: String,
    /// The producer's output that the edge takes.
    pub target_handle: String,
}

/// A graph: nodes and edges.
#[derive(Clone, Debug)]
pub struct Graph {
    pub nodes: Vec<GraphNode>,
    pub edges: Vec<GraphEdge>,
}

/// Where the value of an input comes from.
#[derive(Clone, Debug)]
pub enum Source {
    /// The output `handle` of the node at position `node`.
    Output { node: usize, handle: String },
    /// The node's own value number `index`.
    Literal { index: usize },
}

/// An input of a node and where its value comes from.
#[derive(Clone, Debug)]
pub struct Binding {
    pub handle: String,
    pub source: Source,
}

/// A [`GraphNode`] as a mathematical value.
#[verifier::ext_equal]
pub struct NodeView {
    pub id: Seq<char>,
    pub realtime: bool,
    pub inputs: Seq<Seq<char>>,
}

/// A [`GraphEdge`] as a mathematical value.
pub struct EdgeView {
    pub source: Seq<char>,
    pub target: Seq<char>,
    pub source_handle: Seq<char>,
    pub target_handle: Seq<char>,
}

/// A [`Graph`] as a mathematical value.
#[verifier::ext_equal]
pub struct GraphView {
    pub nodes: Seq<NodeView>,
    pub edges: Seq<EdgeView>,
}

/// A [`Source`] as a mathematical value.
pub enum SourceView {
    Output { node: int, handle: Seq<char> },
    Literal { index: int },
}

/// A [`Binding`] as a mathematical value.
pub struct BindingView {
    pub handle: Seq<char>,
    pub source: SourceView,
}

impl View for GraphNode {
    type V = NodeView;

    open spec fn view(&self) -> NodeView {
        NodeView {
            id: self.id@,
            realtime: self.realtime,
            inputs: self.inputs@.map_values(|s: String| s@),
        }
    }
}

impl View for GraphEdge {
    type V = EdgeView;

    open spec fn view(&self) -> EdgeView {
        EdgeView {
            source: self.source@,
            target: self.target@,
            source_handle: self.source_handle@,
            target_handle: self.target_handle@,
        }
    }
}

impl View for Graph {
    type V = GraphView;

    open spec fn view(&self) -> GraphView {
        GraphView {
            nodes: self.nodes@.map_values(|n: GraphNode| n@),
            edges: self.edges@.map_values(|e: GraphEdge| e@),
        }
    }
}

impl View for Source {
    type V = SourceView;

    open spec fn view(&self) -> SourceView {
        match self {
            Source::Output { node, handle } => SourceView::Output { node: *node as int, handle: handle@ },
            Source::Literal { index } => SourceView::Literal { index: *index as int },
        }
    }
}

impl View for Binding {
    type V = BindingView;

    open spec fn view(&self) -> BindingView {
        BindingView { handle: self.handle@, source: self.source@ }
    }
}

/// The bindings as mathematical values.
pub open spec fn bindings_view(bindings: Seq<Binding>) -> Seq<BindingView> {
    bindings.map_values(|b: Binding| b@)
}

/// The inputs of every node as mathematical values.
pub open spec fn inputs_view(inputs: Seq<Option<Vec<Binding>>>) -> Seq<Option<Seq<BindingView>>> {
    inputs.map_values(
        |o: Option<Vec<Binding>>|
            match o {
                Some(v) => Some(bindings_view(v@)),
                None => None,
            },
    )
}

/// The first position from `from` on of the node with id `id`, or the
/// number of nodes.
pub open spec fn node_index(nodes: Seq<NodeView>, id: Seq<char>, from: int) -> int
    decreases nodes.len() - from,
{
    if from < 0 || from >= nodes.len() {
        nodes.len() as int
    } else if nodes[from].id == id {
        from
    } else {
        node_index(nodes, id, from + 1)
    }
}

/// The first position from `from` on of the binding of `handle`, or the
/// number of bindings.
pub open spec fn binding_index(bindings: Seq<BindingView>, handle: Seq<char>, from: int) -> int
    decreases bindings.len() - from,
{
    if from < 0 || from >= bindings.len() {
        bindings.len() as int
    } else if bindings[from].handle == handle {
        from
    } else {
        binding_index(bindings, handle, from + 1)
    }
}

/// `bindings` with `handle` bound to `source`: in place of its earlier
/// binding, or behind the others.
pub open spec fn bound(bindings: Seq<BindingView>, handle: Seq<char>, source: SourceView) -> Seq<
    BindingView,
> {
    let at = binding_index(bindings, handle, 0);
    if at < bindings.len() {
        bindings.update(at, BindingView { handle, source })
    } else {
        bindings.push(BindingView { handle, source })
    }
}

/// `bindings` with the node's own values number `from` and up bound to
/// their handles, except for handles that are bound already.
pub open spec fn with_literals(bindings: Seq<BindingView>, handles: Seq<Seq<char>>, from: int) -> Seq<
    BindingView,
>
    decreases handles.len() - from,
{
    if from < 0 || from >= handles.len() {
        bindings
    } else if binding_index(bindings, handles[from], 0) < bindings.len() {
        with_literals(bindings, handles, from + 1)
    } else {
        with_literals(
            bindings.push(
                BindingView { handle: handles[from], source: SourceView::Literal { index: from } },
            ),
            handles,
            from + 1,
        )
    }
}

/// Whether an edge from position `from` on has the node `id` as its
/// consumer.
pub open spec fn consumes(edges: Seq<EdgeView>, id: Seq<char>, from: int) -> bool
    decreases edges.len() - from,
{
    if from < 0 || from >= edges.len() {
        false
    } else if edges[from].source == id {
        true
    } else {
        consumes(edges, id, from + 1)
    }
}

/// The state of a walk.
#[verifier::ext_equal]
pub struct Walk {
    /// For each node, whether its inputs are complete.
    pub visited: Seq<bool>,
    /// For each node, whether it has run.
    pub executed: Seq<bool>,
    /// For each node, whether it waits for a producer and no node was
    /// completed since.
    pub pending: Seq<bool>,
    /// For each node that was entered, its inputs as far as they are bound.
    pub inputs: Seq<Option<Seq<BindingView>>>,
    /// The nodes that have run, in the order in which they ran.
    pub order: Seq<int>,
}

impl Walk {
    /// The walk before the first node of a graph of `n` nodes.
    pub open spec fn start(n: nat) -> Walk {
        Walk {
            visited: Seq::new(n, |i: int| false),
            executed: Seq::new(n, |i: int| false),
            pending: Seq::new(n, |i: int| false),
            inputs: Seq::new(n, |i: int| None),
            order: seq![],
        }
    }

    /// Every list has an entry for each of `n` nodes.
    pub open spec fn wf(self, n: nat) -> bool {
        &&& self.visited.len() == n
        &&& self.executed.len() == n
        &&& self.pending.len() == n
        &&& self.inputs.len() == n
        &&& forall|i: int| 0 <= i < n ==> (#[trigger] self.inputs[i] is Some || !self.visited[i])
    }

    /// The walk with the inputs of node `at` started anew.
    pub open spec fn entered(self, at: int) -> Walk {
        Walk { inputs: self.inputs.update(at, Some(seq![])), ..self }
    }

    /// The walk with an input of node `at` bound.
    pub open spec fn with_input(self, at: int, handle: Seq<char>, source: SourceView) -> Walk {
        Walk { inputs: self.inputs.update(at, Some(bound(self.inputs[at]->0, handle, source))), ..self }
    }

    /// The walk with node `at` waiting for a producer, or no longer.
    pub open spec fn waiting(self, at: int, pending: bool) -> Walk {
        Walk { pending: self.pending.update(at, pending), ..self }
    }

    /// The walk with the inputs of node `at` completed by its own values:
    /// the node is visited, and no node waits without progress any more.
    pub open spec fn completed(self, at: int, handles: Seq<Seq<char>>) -> Walk {
        Walk {
            visited: self.visited.update(at, true),
            pending: Seq::new(self.pending.len(), |i: int| false),
            inputs: self.inputs.update(at, Some(with_literals(self.inputs[at]->0, handles, 0))),
            ..self
        }
    }

    /// The walk with node `at` run.
    pub open spec fn ran(self, at: int) -> Walk {
        Walk { executed: self.executed.update(at, true), order: self.order.push(at), ..self }
    }

    /// No node has run twice: the nodes that have run are the nodes in
    /// `order`, each once, and each of them is visited.
    pub open spec fn once(self) -> bool {
        &&& forall|k: int|
            0 <= k < self.order.len() ==> 0 <= #[trigger] self.order[k] < self.executed.len()
                && self.executed[self.order[k]]
        &&& forall|i: int, j: int|
            0 <= i < j < self.order.len() ==> #[trigger] self.order[i] != #[trigger] self.order[j]
        &&& forall|i: int|
            0 <= i < self.executed.len() && i < self.visited.len() && #[trigger] self.executed[i]
                ==> self.visited[i]
    }

    /// In a realtime walk only realtime nodes have run.
    pub open spec fn gated(self, graph: GraphView, realtime: bool) -> bool {
        &&& realtime ==> forall|k: int|
            0 <= k < self.order.len() ==> 0 <= #[trigger] self.order[k] < graph.nodes.len()
                && graph.nodes[self.order[k]].realtime
        &&& realtime ==> forall|i: int|
            0 <= i < self.executed.len() && i < graph.nodes.len() && #[trigger] self.executed[i]
                ==> graph.nodes[i].realtime
    }
}

/// The walk after a visit of the node `id`, with `fuel` calls of depth to
/// spend.
///
/// A node that is visited already is left alone. A node that waits for a
/// producer with nothing completed since closes a cycle. Otherwise its
/// inputs are gathered from its producers.
pub open spec fn visit(graph: GraphView, walk: Walk, id: Seq<char>, realtime: bool, fuel: nat) -> Result<
    Walk,
    GraphError,
>
    decreases fuel, 0nat, 0nat,
{
    let at = node_index(graph.nodes, id, 0);
    if at >= graph.nodes.len() {
        Err(GraphError::UnknownNode)
    } else if walk.visited[at] {
        Ok(walk)
    } else if walk.pending[at] || fuel == 0 {
        Err(GraphError::GraphCycle)
    } else {
        gather(graph, walk.entered(at), at, 0, realtime, (fuel - 1) as nat)
    }
}

/// The walk after the inputs of node `at` are gathered from the edges
/// number `e` and up.
///
/// Each edge that feeds the node binds its input to the producer's output
/// if the producer has run. At the first producer that has not, the walk
/// visits that producer and leaves the node for later. With every edge
/// bound the node is finished.
pub open spec fn gather(graph: GraphView, walk: Walk, at: int, e: int, realtime: bool, fuel: nat) -> Result<
    Walk,
    GraphError,
>
    decreases fuel, 3nat, graph.edges.len() - e,
{
    if e < 0 || e >= graph.edges.len() {
        finish(graph, walk, at, realtime, fuel)
    } else if graph.edges[e].source != graph.nodes[at].id {
        gather(graph, walk, at, e + 1, realtime, fuel)
    } else {
        let producer = node_index(graph.nodes, graph.edges[e].target, 0);
        if producer < graph.nodes.len() && walk.executed[producer] {
            gather(
                graph,
                walk.with_input(
                    at,
                    graph.edges[e].source_handle,
                    SourceView::Output { node: producer, handle: graph.edges[e].target_handle },
                ),
                at,
                e + 1,
                realtime,
                fuel,
            )
        } else {
            match visit(graph, walk.waiting(at, true), graph.edges[e].target, realtime, fuel) {
                Err(error) => Err(error),
                Ok(after) => Ok(after.waiting(at, false)),
            }
        }
    }
}

/// The walk after node `at`, its edges bound, is finished: its own values
/// fill the inputs that no edge feeds, and it is visited. Unless the walk
/// is realtime and the node is not, the node runs, and then its consumers
/// are visited.
pub open spec fn finish(graph: GraphView, walk: Walk, at: int, realtime: bool, fuel: nat) -> Result<
    Walk,
    GraphError,
>
    decreases fuel, 2nat, 0nat,
{
    let done = walk.completed(at, graph.nodes[at].inputs);
    if realtime && !graph.nodes[at].realtime {
        Ok(done)
    } else {
        consumers(graph, done.ran(at), at, 0, realtime, fuel)
    }
}

/// The walk after the consumers of node `at` on the edges number `e` and
/// up are visited, one after the other.
pub open spec fn consumers(graph: GraphView, walk: Walk, at: int, e: int, realtime: bool, fuel: nat) -> Result<
    Walk,
    GraphError,
>
    decreases fuel, 1nat, graph.edges.len() - e,
{
    if e < 0 || e >= graph.edges.len() {
        Ok(walk)
    } else if graph.edges[e].target != graph.nodes[at].id {
        consumers(graph, walk, at, e + 1, realtime, fuel)
    } else {
        match visit(graph, walk, graph.edges[e].source, realtime, fuel) {
            Err(error) => Err(error),
            Ok(after) => consumers(graph, after, at, e + 1, realtime, fuel),
        }
    }
}

/// How deep a walk of a graph of `n` nodes may go.
pub open spec fn depth_limit(n: nat) -> nat {
    if n < 0xffff_ffff {
        (n + 1) * (n + 1)
    } else {
        0xffff_ffff_ffff_ffff
    }
}

/// The walk after the roots among the first `i` nodes are visited, in
/// order. A root is a node that no edge has as its consumer.
pub open spec fn walk_roots(graph: GraphView, i: int, realtime: bool) -> Result<Walk, GraphError>
    decreases i,
{
    if i <= 0 {
        Ok(Walk::start(graph.nodes.len()))
    } else {
        match walk_roots(graph, i - 1, realtime) {
            Err(error) => Err(error),
            Ok(walk) => if consumes(graph.edges, graph.nodes[i - 1].id, 0) {
                Ok(walk)
            } else {
                visit(graph, walk, graph.nodes[i - 1].id, realtime, depth_limit(graph.nodes.len()))
            },
        }
    }
}

/// An error among the first roots stays the result for more roots.
pub proof fn lemma_walk_roots_error(graph: GraphView, k: int, n: int, realtime: bool)
    requires
        0 <= k <= n,
        walk_roots(graph, k, realtime) is Err,
    ensures
        walk_roots(graph, n, realtime) == walk_roots(graph, k, realtime),
    decreases n,
{
    if k < n {
        lemma_walk_roots_error(graph, k, n - 1, realtime);
    }
}

/// Every edge names nodes that the graph has.
pub open spec fn edges_known(graph: GraphView) -> bool {
    forall|e: int|
        0 <= e < graph.edges.len() ==> node_index(graph.nodes, (#[trigger] graph.edges[e]).source, 0)
            < graph.nodes.len() && node_index(graph.nodes, graph.edges[e].target, 0)
            < graph.nodes.len()
}

/// `node_index` gives a position at or behind `from`, at which, if it is
/// in range, a node of that id stands.
pub proof fn lemma_node_index(nodes: Seq<NodeView>, id: Seq<char>, from: int)
    requires
        0 <= from <= nodes.len(),
    ensures
        from <= node_index(nodes, id, from) <= nodes.len(),
        node_index(nodes, id, from) < nodes.len() ==> nodes[node_index(nodes, id, from)].id == id,
        forall|i: int| from <= i < nodes.len() && nodes[i].id == id ==> node_index(nodes, id, from) <= i,
    decreases nodes.len() - from,
{
    if from < nodes.len() && nodes[from].id != id {
        lemma_node_index(nodes, id, from + 1);
    }
}

/// The walk went through, or it failed for a cycle.
pub open spec fn fails_only_for_cycle(r: Result<Walk, GraphError>) -> bool {
    r is Ok || r == Err::<Walk, GraphError>(GraphError::GraphCycle)
}

/// Where every edge names nodes that the graph has, a visit of a node
/// that the graph has fails only for a cycle.
pub proof fn lemma_visit_known(graph: GraphView, walk: Walk, id: Seq<char>, realtime: bool, fuel: nat)
    requires
        edges_known(graph),
        node_index(graph.nodes, id, 0) < graph.nodes.len(),
    ensures
        fails_only_for_cycle(visit(graph, walk, id, realtime, fuel)),
    decreases fuel, 0nat, 0nat,
{
    lemma_node_index(graph.nodes, id, 0);
    let at = node_index(graph.nodes, id, 0);
    if !walk.visited[at] && !(walk.pending[at] || fuel == 0) {
        lemma_gather_known(graph, walk.entered(at), at, 0, realtime, (fuel - 1) as nat);
    }
}

/// Where every edge names nodes that the graph has, gathering the inputs
/// of a node fails only for a cycle.
pub proof fn lemma_gather_known(graph: GraphView, walk: Walk, at: int, e: int, realtime: bool, fuel: nat)
    requires
        edges_known(graph),
        0 <= at < graph.nodes.len(),
        0 <= e,
    ensures
        fails_only_for_cycle(gather(graph, walk, at, e, realtime, fuel)),
    decreases fuel, 3nat, graph.edges.len() - e,
{
    if e >= graph.edges.len() {
        lemma_finish_known(graph, walk, at, realtime, fuel);
    } else if graph.edges[e].source != graph.nodes[at].id {
        lemma_gather_known(graph, walk, at, e + 1, realtime, fuel);
    } else {
        let producer = node_index(graph.nodes, graph.edges[e].target, 0);
        if producer < graph.nodes.len() && walk.executed[producer] {
            lemma_gather_known(
                graph,
                walk.with_input(
                    at,
                    graph.edges[e].source_handle,
                    SourceView::Output { node: producer, handle: graph.edges[e].target_handle },
                ),
                at,
                e + 1,
                realtime,
                fuel,
            );
        } else {
            lemma_visit_known(graph, walk.waiting(at, true), graph.edges[e].target, realtime, fuel);
        }
    }
}

/// Where every edge names nodes that the graph has, finishing a node fails
/// only for a cycle.
pub proof fn lemma_finish_known(graph: GraphView, walk: Walk, at: int, realtime: bool, fuel: nat)
    requires
        edges_known(graph),
        0 <= at < graph.nodes.len(),
    ensures
        fails_only_for_cycle(finish(graph, walk, at, realtime, fuel)),
    decreases fuel, 2nat, 0nat,
{
    let done = walk.completed(at, graph.nodes[at].inputs);
    if !(realtime && !graph.nodes[at].realtime) {
        lemma_consumers_known(graph, done.ran(at), at, 0, realtime, fuel);
    }
}

/// Where every edge names nodes that the graph has, visiting the
/// consumers of a node fails only for a cycle.
pub proof fn lemma_consumers_known(
    graph: GraphView,
    walk: Walk,
    at: int,
    e: int,
    realtime: bool,
    fuel: nat,
)
    requires
        edges_known(graph),
        0 <= at < graph.nodes.len(),
        0 <= e,
    ensures
        fails_only_for_cycle(consumers(graph, walk, at, e, realtime, fuel)),
    decreases fuel, 1nat, graph.edges.len() - e,
{
    if e < graph.edges.len() {
        if graph.edges[e].target != graph.nodes[at].id {
            lemma_consumers_known(graph, walk, at, e + 1, realtime, fuel);
        } else {
            lemma_visit_known(graph, walk, graph.edges[e].source, realtime, fuel);
            match visit(graph, walk, graph.edges[e].source, realtime, fuel) {
                Err(error) => {},
                Ok(after) => {
                    lemma_consumers_known(graph, after, at, e + 1, realtime, fuel);
                },
            }
        }
    }
}

/// The plan of a graph whose edges name only nodes that it has is there,
/// or the error is `GraphCycle`.
pub proof fn lemma_plan_known(graph: GraphView, i: int, realtime: bool)
    requires
        edges_known(graph),
        0 <= i <= graph.nodes.len(),
    ensures
        fails_only_for_cycle(walk_roots(graph, i, realtime)),
    decreases i,
{
    if i > 0 {
        lemma_plan_known(graph, i - 1, realtime);
        match walk_roots(graph, i - 1, realtime) {
            Err(error) => {},
            Ok(walk) => {
                if !consumes(graph.edges, graph.nodes[i - 1].id, 0) {
                    lemma_node_index(graph.nodes, graph.nodes[i - 1].id, 0);
                    lemma_visit_known(
                        graph,
                        walk,
                        graph.nodes[i - 1].id,
                        realtime,
                        depth_limit(graph.nodes.len()),
                    );
                }
            },
        }
    }
}

/// Two graphs that are equal as values are walked alike: the plan of an
/// evaluation depends on nothing but the graph and the realtime flag.
pub proof fn lemma_plan_repeatable(first: Graph, second: Graph, realtime: bool)
    requires
        first@ == second@,
    ensures
        walk_roots(first@, first.nodes.len() as int, realtime) == walk_roots(
            second@,
            second.nodes.len() as int,
            realtime,
        ),
{
    assert(first@.nodes.len() == first.nodes.len());
    assert(second@.nodes.len() == second.nodes.len());
}

/// The executable state of a walk, and what it leaves behind: the plan of
/// an evaluation.
#[derive(Clone, Debug)]
pub struct Plan {
    /// For each node, whether its inputs are complete.
    pub visited: Vec<bool>,
    /// For each node, whether it runs.
    pub executed: Vec<bool>,
    /// For each node, whether it waits for a producer.
    pub pending: Vec<bool>,
    /// For each node that was entered, where its inputs come from.
    pub inputs: Vec<Option<Vec<Binding>>>,
    /// The nodes that run, in the order in which they run.
    pub order: Vec<usize>,
}

impl View for Plan {
    type V = Walk;

    open spec fn view(&self) -> Walk {
        Walk {
            visited: self.visited@,
            executed: self.executed@,
            pending: self.pending@,
            inputs: inputs_view(self.inputs@),
            order: self.order@.map_values(|k: usize| k as int),
        }
    }
}

/// The first position from `from` on of a hyphen in `id`, or its length.
pub open spec fn hyphen_index(id: Seq<char>, from: int) -> int
    decreases id.len() - from,
{
    if from < 0 || from >= id.len() {
        id.len() as int
    } else if id[from] == '-' {
        from
    } else {
        hyphen_index(id, from + 1)
    }
}

/// The kind of the node `id`: what stands before its first hyphen.
pub open spec fn kind_of_id(id: Seq<char>) -> Seq<char> {
    id.take(hyphen_index(id, 0))
}

/// The kind of the node `id`, by which its function is looked up: the id
/// without the hyphen and the unique part behind it.
pub fn node_kind(id: &str) -> (kind: String)
    ensures
        kind@ == kind_of_id(id@),
{
    let cs = chars_of(id);
    let mut out: Vec<char> = Vec::new();
    let mut at: usize = 0;
    while at < cs.len() && cs[at] != '-'
        invariant
            at <= cs.len(),
            hyphen_index(cs@, at as int) == hyphen_index(cs@, 0),
            out@ == cs@.take(at as int),
        decreases cs.len() - at,
    {
        out.push(cs[at]);
        assert(out@ =~= cs@.take(at + 1));
        at += 1;
    }
    string_of(&out)
}

/// Whether nodes of the executor `executor` run here: only those of
/// `rust` do; a node of another executor gives no outputs.
pub fn runs_here(executor: &str) -> (r: bool)
    ensures
        r == (executor@ == "rust"@),
{
    let given = String::from_str(executor);
    let rust = String::from_str("rust");
    given == rust
}

/// The first node with id `id`, by position.
pub fn find_node(graph: &Graph, id: &String) -> (at: usize)
    ensures
        at == node_index(graph@.nodes, id@, 0),
        at <= graph.nodes.len(),
        at < graph.nodes.len() ==> graph.nodes@[at as int].id@ == id@,
{
    let mut at: usize = 0;
    while at < graph.nodes.len() && !(graph.nodes[at].id == *id)
        invariant
            at <= graph.nodes.len(),
            node_index(graph@.nodes, id@, at as int) == node_index(graph@.nodes, id@, 0),
        decreases graph.nodes.len() - at,
    {
        assert(graph@.nodes[at as int].id == graph.nodes@[at as int].id@);
        at += 1;
    }
    proof {
        if at < graph.nodes.len() {
            assert(graph@.nodes[at as int].id == graph.nodes@[at as int].id@);
        }
    }
    at
}

/// Whether some edge has the node `id` as its consumer.
pub fn is_consumer(graph: &Graph, id: &String) -> (r: bool)
    ensures
        r == consumes(graph@.edges, id@, 0),
{
    let mut e: usize = 0;
    while e < graph.edges.len()
        invariant
            e <= graph.edges.len(),
            consumes(graph@.edges, id@, e as int) == consumes(graph@.edges, id@, 0),
        decreases graph.edges.len() - e,
    {
        assert(graph@.edges[e as int].source == graph.edges@[e as int].source@);
        if graph.edges[e].source == *id {
            return true;
        }
        e += 1;
    }
    false
}

/// Binds `handle` to `source`.
fn bind(bindings: &mut Vec<Binding>, handle: String, source: Source)
    ensures
        bindings_view(final(bindings)@) == bound(bindings_view(old(bindings)@), handle@, source@),
{
    let ghost before = bindings_view(bindings@);
    let at = find_binding(bindings, &handle);
    let binding = Binding { handle, source };
    if at < bindings.len() {
        bindings.set(at, binding);
        assert(bindings_view(bindings@) =~= before.update(at as int, binding@));
    } else {
        bindings.push(binding);
        assert(bindings_view(bindings@) =~= before.push(binding@));
    }
}

/// The first binding of `handle`, by position.
fn find_binding(bindings: &Vec<Binding>, handle: &String) -> (at: usize)
    ensures
        at == binding_index(bindings_view(bindings@), handle@, 0),
        at <= bindings.len(),
{
    let ghost views = bindings_view(bindings@);
    let mut at: usize = 0;
    while at < bindings.len() && !(bindings[at].handle == *handle)
        invariant
            at <= bindings.len(),
            views == bindings_view(bindings@),
            binding_index(views, handle@, at as int) == binding_index(views, handle@, 0),
        decreases bindings.len() - at,
    {
        assert(views[at as int].handle == bindings@[at as int].handle@);
        at += 1;
    }
    proof {
        if at < bindings.len() {
            assert(views[at as int].handle == bindings@[at as int].handle@);
        }
    }
    at
}

/// Binds the node's own values to the handles that are not bound yet.
fn add_literals(bindings: &mut Vec<Binding>, handles: &Vec<String>)
    ensures
        bindings_view(final(bindings)@) == with_literals(
            bindings_view(old(bindings)@),
            handles@.map_values(|s: String| s@),
            0,
        ),
{
    let ghost names = handles@.map_values(|s: String| s@);
    let mut i: usize = 0;
    while i < handles.len()
        invariant
            i <= handles.len(),
            names == handles@.map_values(|s: String| s@),
            with_literals(bindings_view(bindings@), names, i as int) == with_literals(
                bindings_view(old(bindings)@),
                names,
                0,
            ),
        decreases handles.len() - i,
    {
        assert(names[i as int] == handles@[i as int]@);
        let ghost before = bindings_view(bindings@);
        if find_binding(bindings, &handles[i]) == bindings.len() {
            let binding = Binding { handle: handles[i].clone(), source: Source::Literal { index: i } };
            bindings.push(binding);
            assert(bindings_view(bindings@) =~= before.push(
                BindingView { handle: names[i as int], source: SourceView::Literal { index: i as int } },
            ));
        }
        i += 1;
    }
}

/// Visits the node `id`: see [`visit`].
pub fn visit_node(graph: &Graph, plan: &mut Plan, id: &String, realtime: bool, fuel: u64) -> (r: Result<
    (),
    GraphError,
>)
    requires
        old(plan)@.wf(graph@.nodes.len()),
        old(plan)@.gated(graph@, realtime),
        old(plan)@.once(),
    ensures
        match r {
            Ok(_) => visit(graph@, old(plan)@, id@, realtime, fuel as nat) == Ok::<Walk, GraphError>(
                final(plan)@,
            ) && final(plan)@.wf(graph@.nodes.len()) && final(plan)@.gated(graph@, realtime)
                && final(plan)@.once(),
            Err(e) => visit(graph@, old(plan)@, id@, realtime, fuel as nat) == Err::<
                Walk,
                GraphError,
            >(e),
        },
    decreases fuel,
{
    let ghost g = graph@;
    let ghost n = graph@.nodes.len();
    let at = find_node(graph, id);
    if at >= graph.nodes.len() {
        return Err(GraphError::UnknownNode);
    }
    if plan.visited[at] {
        return Ok(());
    }
    if plan.pending[at] || fuel == 0 {
        return Err(GraphError::GraphCycle);
    }
    let ghost start = plan@;
    let ghost rest = (fuel - 1) as nat;
    let mut local: Vec<Binding> = Vec::new();
    let node_id = &graph.nodes[at].id;
    assert(g.nodes[at as int].id == node_id@);
    let ghost goal = visit(graph@, old(plan)@, id@, realtime, fuel as nat);
    assert(goal == gather(g, start.entered(at as int), at as int, 0, realtime, rest));
    assert(bindings_view(local@) =~= Seq::<BindingView>::empty());
    assert(Walk { inputs: start.inputs.update(at as int, Some(bindings_view(local@))), ..start }
        =~= start.entered(at as int));
    let mut e: usize = 0;
    while e < graph.edges.len()
        invariant
            e <= graph.edges.len(),
            g == graph@,
            n == g.nodes.len(),
            at < n,
            fuel > 0,
            rest == fuel - 1,
            g.nodes[at as int].id == node_id@,
            *plan == *old(plan),
            start == plan@,
            start.wf(n),
            start.gated(g, realtime),
            start.once(),
            !start.visited[at as int],
            goal == visit(graph@, old(plan)@, id@, realtime, fuel as nat),
            goal == gather(g, start.entered(at as int), at as int, 0, realtime, rest),
            gather(
                g,
                Walk { inputs: start.inputs.update(at as int, Some(bindings_view(local@))), ..start },
                at as int,
                e as int,
                realtime,
                rest,
            ) == gather(g, start.entered(at as int), at as int, 0, realtime, rest),
        decreases graph.edges.len() - e,
    {
        let ghost here = Walk {
            inputs: start.inputs.update(at as int, Some(bindings_view(local@))),
            ..start
        };
        let edge = &graph.edges[e];
        assert(g.edges[e as int] == edge@);
        if edge.source == *node_id {
            let producer = find_node(graph, &edge.target);
            if producer < graph.nodes.len() && plan.executed[producer] {
                bind(
                    &mut local,
                    edge.source_handle.clone(),
                    Source::Output { node: producer, handle: edge.target_handle.clone() },
                );
                assert(Walk {
                    inputs: start.inputs.update(at as int, Some(bindings_view(local@))),
                    ..start
                } =~= here.with_input(
                    at as int,
                    edge@.source_handle,
                    SourceView::Output { node: producer as int, handle: edge@.target_handle },
                ));
            } else {
                plan.inputs.set(at, Some(local));
                plan.pending.set(at, true);
                assert(plan@ =~= here.waiting(at as int, true));
                assert(plan@.once());
                assert(gather(g, here, at as int, e as int, realtime, rest) == (match visit(
                    g,
                    here.waiting(at as int, true),
                    edge@.target,
                    realtime,
                    rest,
                ) {
                    Err(error) => Err::<Walk, GraphError>(error),
                    Ok(after) => Ok(after.waiting(at as int, false)),
                }));
                match visit_node(graph, plan, &edge.target, realtime, fuel - 1) {
                    Err(error) => {
                        return Err(error);
                    },
                    Ok(_) => {
                        let ghost after = plan@;
                        plan.pending.set(at, false);
                        assert(plan@ =~= after.waiting(at as int, false));
                        assert(plan@.once());
                        return Ok(());
                    },
                }
            }
        }
        e += 1;
    }
    let ghost bound_all = Walk {
        inputs: start.inputs.update(at as int, Some(bindings_view(local@))),
        ..start
    };
    assert(goal == finish(g, bound_all, at as int, realtime, rest));
    assert(g.nodes[at as int].inputs == graph.nodes@[at as int].inputs@.map_values(|s: String| s@));
    add_literals(&mut local, &graph.nodes[at].inputs);
    plan.inputs.set(at, Some(local));
    plan.visited.set(at, true);
    let mut k: usize = 0;
    while k < plan.pending.len()
        invariant
            k <= plan.pending.len(),
            plan.pending.len() == n,
            goal == visit(graph@, old(plan)@, id@, realtime, fuel as nat),
            goal == finish(g, bound_all, at as int, realtime, rest),
            g == graph@,
            start.gated(g, realtime),
            start.once(),
            !start.visited[at as int],
            at < n,
            start.wf(n),
            start == old(plan)@,
            bound_all.inputs[at as int] is Some,
            plan.visited@ == old(plan).visited@.update(at as int, true),
            plan.executed@ == old(plan).executed@,
            plan.order@ == old(plan).order@,
            inputs_view(plan.inputs@) == start.inputs.update(
                at as int,
                Some(with_literals(bound_all.inputs[at as int]->0, g.nodes[at as int].inputs, 0)),
            ),
            forall|i: int| 0 <= i < k ==> !plan.pending@[i],
        decreases plan.pending.len() - k,
    {
        plan.pending.set(k, false);
        k += 1;
    }
    let ghost done = bound_all.completed(at as int, g.nodes[at as int].inputs);
    assert(plan@ =~= done);
    assert(done.wf(n));
    assert(done.once());
    assert(!done.executed[at as int]);
    if realtime && !graph.nodes[at].realtime {
        return Ok(());
    }
    plan.executed.set(at, true);
    plan.order.push(at);
    let ghost running = done.ran(at as int);
    assert(plan@ =~= running);
    assert(running.once()) by {
        assert forall|i: int, j: int| 0 <= i < j < running.order.len() implies #[trigger] running.order[i]
            != #[trigger] running.order[j] by {
            if j == done.order.len() {
                assert(running.order[i] == done.order[i]);
                assert(done.executed[done.order[i]]);
            } else {
                assert(running.order[i] == done.order[i] && running.order[j] == done.order[j]);
            }
        }
        assert forall|k: int| 0 <= k < running.order.len() implies 0 <= #[trigger] running.order[k]
            < running.executed.len() && running.executed[running.order[k]] by {
            if k < done.order.len() {
                assert(running.order[k] == done.order[k]);
                assert(done.executed[done.order[k]]);
            }
        }
    }
    assert(goal == consumers(g, running, at as int, 0, realtime, rest));
    assert(running.gated(g, realtime)) by {
        if realtime {
            assert forall|i: int| 0 <= i < running.order.len() implies 0 <= #[trigger] running.order[i]
                < g.nodes.len() && g.nodes[running.order[i]].realtime by {
                if i < start.order.len() {
                    assert(running.order[i] == start.order[i]);
                }
            }
        }
    }
    let mut c: usize = 0;
    while c < graph.edges.len()
        invariant
            c <= graph.edges.len(),
            g == graph@,
            n == g.nodes.len(),
            at < n,
            fuel > 0,
            rest == fuel - 1,
            g.nodes[at as int].id == node_id@,
            plan@.wf(n),
            plan@.gated(g, realtime),
            plan@.once(),
            goal == visit(graph@, old(plan)@, id@, realtime, fuel as nat),
            goal == consumers(g, running, at as int, 0, realtime, rest),
            consumers(g, plan@, at as int, c as int, realtime, rest) == consumers(
                g,
                running,
                at as int,
                0,
                realtime,
                rest,
            ),
        decreases graph.edges.len() - c,
    {
        let edge = &graph.edges[c];
        assert(g.edges[c as int] == edge@);
        if edge.target == *node_id {
            match visit_node(graph, plan, &edge.source, realtime, fuel - 1) {
                Err(error) => {
                    return Err(error);
                },
                Ok(_) => {},
            }
        }
        c += 1;
    }
    Ok(())
}

/// Plans an evaluation of the graph: visits its roots in the order of the
/// nodes, and says which nodes run, in which order, and where their inputs
/// come from. No node runs twice. In a realtime evaluation a node that is
/// not realtime does not run, and neither does a node that waits for one.
pub fn plan_execution(graph: &Graph, realtime: bool) -> (r: Result<Plan, GraphError>)
    ensures
        match r {
            Ok(plan) => walk_roots(graph@, graph.nodes.len() as int, realtime) == Ok::<
                Walk,
                GraphError,
            >(plan@) && plan@.gated(graph@, realtime) && plan@.once(),
            Err(e) => walk_roots(graph@, graph.nodes.len() as int, realtime) == Err::<
                Walk,
                GraphError,
            >(e),
        },
{
    let n = graph.nodes.len();
    let limit: u64 = if n < 0xffff_ffff {
        assert((n + 1) * (n + 1) <= 0xffff_ffff * 0xffff_ffff) by (nonlinear_arith)
            requires
                0 <= n < 0xffff_ffff,
        ;
        (n as u64 + 1) * (n as u64 + 1)
    } else {
        0xffff_ffff_ffff_ffff
    };
    let mut plan = Plan {
        visited: Vec::new(),
        executed: Vec::new(),
        pending: Vec::new(),
        inputs: Vec::new(),
        order: Vec::new(),
    };
    let mut k: usize = 0;
    while k < n
        invariant
            k <= n,
            plan.visited.len() == k,
            plan.executed.len() == k,
            plan.pending.len() == k,
            plan.inputs.len() == k,
            plan.order.len() == 0,
            forall|i: int| 0 <= i < k ==> !plan.visited@[i] && !plan.executed@[i] && !plan.pending@[i],
            forall|i: int| 0 <= i < k ==> plan.inputs@[i] is None,
        decreases n - k,
    {
        plan.visited.push(false);
        plan.executed.push(false);
        plan.pending.push(false);
        plan.inputs.push(None);
        k += 1;
    }
    assert(plan@ =~= Walk::start(n as nat));
    let mut i: usize = 0;
    while i < n
        invariant
            i <= n,
            n == graph.nodes.len(),
            limit == depth_limit(n as nat),
            plan@.wf(n as nat),
            plan@.gated(graph@, realtime),
            plan@.once(),
            walk_roots(graph@, i as int, realtime) == Ok::<Walk, GraphError>(plan@),
        decreases n - i,
    {
        assert(graph@.nodes[i as int].id == graph.nodes@[i as int].id@);
        if !is_consumer(graph, &graph.nodes[i].id) {
            match visit_node(graph, &mut plan, &graph.nodes[i].id, realtime, limit) {
                Err(error) => {
                    proof {
                        assert(walk_roots(graph@, i + 1, realtime) == Err::<Walk, GraphError>(error));
                        lemma_walk_roots_error(graph@, i + 1, n as int, realtime);
                    }
                    return Err(error);
                },
                Ok(_) => {},
            }
        }
        i += 1;
    }
    Ok(plan)
}

} // verus!
