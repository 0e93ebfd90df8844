use vstd::prelude::*;
use vstd::string::StringExecFns;
use crate::context::{Context, JsonValue, JsonValueView};
use crate::engine::edge::Edge;
use crate::engine::graph::{exit_id, has_edge, is_exit, lemma_unknown_targets_are_the_dangling_edges, pairs_view, unknown_targets, unknown_targets_spec};
use crate::engine::node::Node;
use crate::engine::template::render_spec;
use crate::error::{ErrorView, OrchestratorError, OrchestratorResult};
use crate::json::{JsonTreeView, fields_view, json_object_fields, json_parse, lemma_object_answers_give_all_their_members, object_fields, stored_value};
use crate::table::{Table, entries_map, keys_distinct};

verus! {

/// How many nodes a run may execute before it is stopped.
pub const DEFAULT_MAX_ITERATIONS: usize = 10;

/// The name that ends a run; it is not a node.
pub const EXIT: &'static str = "exit";

/// `pairs` as `from -> to` items joined by `, `.
pub open spec fn describe_pairs(pairs: Seq<(Seq<char>, Seq<char>)>) -> Seq<char>
    decreases pairs.len(),
{
    if pairs.len() == 0 {
        Seq::empty()
    } else {
        let item = pairs.last().0 + " -> "@ + pairs.last().1;
        if pairs.len() == 1 {
            item
        } else {
            describe_pairs(pairs.drop_last()) + ", "@ + item
        }
    }
}

/// The message of the configuration error for edges that point nowhere.
pub open spec fn unknown_edges_message(pairs: Seq<(Seq<char>, Seq<char>)>) -> Seq<char> {
    "edges point to unknown nodes: "@ + describe_pairs(pairs)
}

/// The context once `fields` are stored, in order, under `<id>.<field>`.
pub open spec fn with_fields(
    ctx: Map<Seq<char>, JsonValueView>,
    id: Seq<char>,
    fields: Seq<(Seq<char>, JsonValueView)>,
) -> Map<Seq<char>, JsonValueView>
    decreases fields.len(),
{
    if fields.len() == 0 {
        ctx
    } else {
        with_fields(ctx.insert(id + "."@ + fields[0].0, fields[0].1), id, fields.drop_first())
    }
}

/// The context once node `id` has answered `output`: the fields of an answer
/// that is a JSON object go under `<id>.<field>`, then the answer itself
/// under `<id>.output`.
pub open spec fn recorded(ctx: Map<Seq<char>, JsonValueView>, id: Seq<char>, output: Seq<char>) -> Map<
    Seq<char>,
    JsonValueView,
> {
    let base = match json_object_fields(output) {
        Some(fields) => with_fields(ctx, id, fields),
        None => ctx,
    };
    base.insert(id + ".output"@, JsonValueView::Text(output))
}

/// Stores `fields`, in order, under `<id>.<field>`.
pub fn store_fields(ctx: &mut Context, id: &str, fields: &Vec<(String, JsonValue)>)
    ensures
        final(ctx)@ == with_fields(old(ctx)@, id@, fields_view(fields@)),
{
    let ghost fv = fields_view(fields@);
    let ghost target = with_fields(ctx@, id@, fv);
    let mut i: usize = 0;
    assert(fv.skip(0) =~= fv);
    while i < fields.len()
        invariant
            i <= fields@.len(),
            fv == fields_view(fields@),
            target == with_fields(ctx@, id@, fv.skip(i as int)),
        decreases fields@.len() - i,
    {
        let mut key = String::from_str(id);
        key.append(".");
        key.append(fields[i].0.as_str());
        let ghost k = key@;
        assert(k == id@ + "."@ + fv.skip(i as int)[0].0);
        assert(fv.skip(i as int).drop_first() =~= fv.skip(i + 1));
        ctx.set(key, fields[i].1.clone());
        i = i + 1;
    }
    assert(fv.skip(i as int) =~= Seq::<(Seq<char>, JsonValueView)>::empty());
}

/// Stores the answer `output` of node `id` in `ctx`: the members of an
/// answer that is a JSON object under `<id>.<member>`, then the answer itself
/// under `<id>.output`.
pub fn record(ctx: &mut Context, id: &str, output: String)
    ensures
        final(ctx)@ == recorded(old(ctx)@, id@, output@),
{
    match object_fields(output.as_str()) {
        Some(fields) => store_fields(ctx, id, &fields),
        None => {},
    }
    let mut key = String::from_str(id);
    key.append(".output");
    ctx.set(key, JsonValue::Text(output));
}

/// A call that builds a workflow's node set and entry, by the id it names.
pub enum BuildStep {
    AddNode(Seq<char>),
    SetEntry(Seq<char>),
}

/// The entry once `step` is made: `set_entry` sets it; `add_node` sets it
/// only where there is none yet.
pub open spec fn entry_after_step(entry: Option<Seq<char>>, step: BuildStep) -> Option<Seq<char>> {
    match step {
        BuildStep::SetEntry(id) => Some(id),
        BuildStep::AddNode(id) => match entry {
            Some(e) => Some(e),
            None => Some(id),
        },
    }
}

/// The entry of a new workflow once `steps` are made in turn.
pub open spec fn entry_after(steps: Seq<BuildStep>) -> Option<Seq<char>>
    decreases steps.len(),
{
    if steps.len() == 0 {
        None
    } else {
        entry_after_step(entry_after(steps.drop_last()), steps.last())
    }
}

/// The id named by the last `set_entry` of `steps`.
pub open spec fn last_set_entry(steps: Seq<BuildStep>) -> Option<Seq<char>>
    decreases steps.len(),
{
    if steps.len() == 0 {
        None
    } else {
        match steps.last() {
            BuildStep::SetEntry(id) => Some(id),
            _ => last_set_entry(steps.drop_last()),
        }
    }
}

/// The id of the first node that `steps` add.
pub open spec fn first_added(steps: Seq<BuildStep>) -> Option<Seq<char>>
    decreases steps.len(),
{
    if steps.len() == 0 {
        None
    } else {
        match first_added(steps.drop_last()) {
            Some(id) => Some(id),
            None => match steps.last() {
                BuildStep::AddNode(id) => Some(id),
                _ => None,
            },
        }
    }
}

/// Whatever nodes are added and entries set, in whatever order, the entry is
/// the id of the last `set_entry`, else that of the first node added.
pub proof fn lemma_entry_after(steps: Seq<BuildStep>)
    ensures
        entry_after(steps) == match last_set_entry(steps) {
            Some(e) => Some(e),
            None => first_added(steps),
        },
    decreases steps.len(),
{
    if steps.len() > 0 {
        lemma_entry_after(steps.drop_last());
        match last_set_entry(steps.drop_last()) {
            Some(_) => {},
            None => {
                lemma_no_set_entry(steps.drop_last());
            },
        }
    }
}

proof fn lemma_no_set_entry(steps: Seq<BuildStep>)
    requires
        last_set_entry(steps) is None,
    ensures
        entry_after(steps) == first_added(steps),
    decreases steps.len(),
{
    if steps.len() > 0 {
        lemma_no_set_entry(steps.drop_last());
    }
}

/// What a run is waiting for.
#[derive(PartialEq, Eq, Structural, Clone, Copy, Debug)]
pub enum Phase {
    /// The answer of the node it stands on.
    Output,
    /// The verdict of the condition on this outgoing edge of that node.
    Verdict(usize),
}

/// A run of a workflow between two answers from outside: the node it stands
/// on, the number of nodes it has entered so far, its context, and what it
/// waits for.
pub struct Run {
    current: String,
    iterations: usize,
    context: Context,
    phase: Phase,
}

/// A [`Run`] seen through views.
pub struct RunView {
    pub current: Seq<char>,
    pub iterations: nat,
    pub context: Map<Seq<char>, JsonValueView>,
    pub phase: Phase,
}

impl View for Run {
    type V = RunView;

    closed spec fn view(&self) -> RunView {
        RunView {
            current: self.current@,
            iterations: self.iterations as nat,
            context: self.context@,
            phase: self.phase,
        }
    }
}

impl Run {
    #[verifier::type_invariant]
    spec fn within_budget(self) -> bool {
        self.iterations < DEFAULT_MAX_ITERATIONS
    }

    pub fn current(&self) -> (s: &str)
        ensures
            s@ == self@.current,
    {
        self.current.as_str()
    }

    pub fn iterations(&self) -> (n: usize)
        ensures
            n == self@.iterations,
            n < DEFAULT_MAX_ITERATIONS,
    {
        proof {
            use_type_invariant(self);
        }
        self.iterations
    }

    pub fn context(&self) -> (c: &Context)
        ensures
            c@ == self@.context,
    {
        &self.context
    }

    pub fn phase(&self) -> (p: Phase)
        ensures
            p == self@.phase,
    {
        self.phase
    }
}

/// A completion to ask of a node's provider.
pub struct Request {
    pub node: String,
    pub system: Option<String>,
    pub prompt: String,
    pub model: String,
}

pub struct RequestView {
    pub node: Seq<char>,
    pub system: Option<Seq<char>>,
    pub prompt: Seq<char>,
    pub model: Seq<char>,
}

pub open spec fn option_view(s: Option<String>) -> Option<Seq<char>> {
    match s {
        Some(t) => Some(t@),
        None => None,
    }
}

impl View for Request {
    type V = RequestView;

    open spec fn view(&self) -> RequestView {
        RequestView {
            node: self.node@,
            system: option_view(self.system),
            prompt: self.prompt@,
            model: self.model@,
        }
    }
}

/// What the one who runs the workflow must do before the next step.
pub enum Action {
    /// Send this request to the provider of the node and hand back its answer.
    Complete(Request),
    /// Evaluate the condition of edge `edge` of node `from` on the run's
    /// context and hand back its verdict.
    Test { from: String, edge: usize },
}

pub enum ActionView {
    Complete(RequestView),
    Test { from: Seq<char>, edge: nat },
}

impl View for Action {
    type V = ActionView;

    open spec fn view(&self) -> ActionView {
        match self {
            Action::Complete(r) => ActionView::Complete(r@),
            Action::Test { from, edge } => ActionView::Test { from: from@, edge: *edge as nat },
        }
    }
}

/// What the one who runs the workflow hands back.
pub enum Event {
    /// The provider's answer, or its failure.
    Output(OrchestratorResult<String>),
    /// What the condition gave.
    Verdict(bool),
}

pub enum EventView {
    Output(Result<Seq<char>, ErrorView>),
    Verdict(bool),
}

impl View for Event {
    type V = EventView;

    open spec fn view(&self) -> EventView {
        match self {
            Event::Output(Ok(s)) => EventView::Output(Ok(s@)),
            Event::Output(Err(e)) => EventView::Output(Err(e@)),
            Event::Verdict(b) => EventView::Verdict(*b),
        }
    }
}

/// Where a run stands after a step: waiting on an action, or finished with
/// its final context or an error.
pub enum Progress {
    Pending(Run, Action),
    Done(OrchestratorResult<Context>),
}

pub enum ProgressView {
    Pending(RunView, ActionView),
    Done(Result<Map<Seq<char>, JsonValueView>, ErrorView>),
}

impl View for Progress {
    type V = ProgressView;

    open spec fn view(&self) -> ProgressView {
        match self {
            Progress::Pending(r, a) => ProgressView::Pending(r@, a@),
            Progress::Done(Ok(c)) => ProgressView::Done(Ok(c@)),
            Progress::Done(Err(e)) => ProgressView::Done(Err(e@)),
        }
    }
}

/// The event is the kind of answer the run waits for.
pub open spec fn accepts(run: RunView, event: EventView) -> bool {
    (run.phase == Phase::Output) == (event is Output)
}

/// An execution graph: nodes, and edges (direct or conditional) between
/// them. A run follows the edges from the entry node until it reaches
/// `exit`, evaluating conditions at each transition, which is what allows
/// feedback loops.
pub struct Workflow<P, C> {
    nodes: Table<Node<P>>,
    adj: Table<Vec<Edge<C>>>,
    entry: Option<String>,
}

impl<P: Clone, C: Clone> Clone for Workflow<P, C> {
    /// A copy with the same node ids, sources and entry; each node and each
    /// list of edges is copied by its own `clone`.
    fn clone(&self) -> (w: Self)
        ensures
            w.node_keys() == self.node_keys(),
            w.edge_keys() == self.edge_keys(),
            w.entry_view() == self.entry_view(),
            w.node_map().dom() == self.node_map().dom(),
            forall|k: Seq<char>| #[trigger] w.node_map().contains_key(k) ==> cloned::<Node<P>>(
                self.node_map()[k],
                w.node_map()[k],
            ),
            w.edge_map().dom() == self.edge_map().dom(),
            forall|k: Seq<char>| #[trigger] w.edge_map().contains_key(k) ==> cloned::<Vec<Edge<C>>>(
                self.edge_map()[k],
                w.edge_map()[k],
            ),
    {
        Workflow {
            nodes: self.nodes.clone(),
            adj: self.adj.clone(),
            entry: match &self.entry {
                Some(e) => Some(e.clone()),
                None => None,
            },
        }
    }
}

impl<P, C> Workflow<P, C> {
    /// The nodes, by id.
    pub closed spec fn node_map(&self) -> Map<Seq<char>, Node<P>> {
        self.nodes@
    }

    /// The ids of the nodes, in the order in which they were first added.
    pub closed spec fn node_keys(&self) -> Seq<Seq<char>> {
        self.nodes.key_seq()
    }

    /// The outgoing edges, by source.
    pub closed spec fn edge_map(&self) -> Map<Seq<char>, Vec<Edge<C>>> {
        self.adj@
    }

    /// The sources and their outgoing edges, in the order in which each
    /// source got its first edge.
    pub closed spec fn edge_entries(&self) -> Seq<(String, Vec<Edge<C>>)> {
        self.adj.entry_seq()
    }

    /// The sources, in the order in which each got its first edge.
    pub closed spec fn edge_keys(&self) -> Seq<Seq<char>> {
        self.adj.key_seq()
    }

    pub closed spec fn entry_view(&self) -> Option<Seq<char>> {
        option_view(self.entry)
    }

    /// The edges that leave `id`, in the order in which they were added.
    pub open spec fn out_edges(&self, id: Seq<char>) -> Seq<Edge<C>> {
        if self.edge_map().contains_key(id) {
            self.edge_map()[id]@
        } else {
            Seq::empty()
        }
    }

    /// The run arrives at `current` having entered `iterations` nodes.
    pub open spec fn enter_spec(
        &self,
        current: Seq<char>,
        iterations: nat,
        ctx: Map<Seq<char>, JsonValueView>,
    ) -> ProgressView {
        if current == exit_id() {
            ProgressView::Done(Ok(ctx))
        } else if iterations >= DEFAULT_MAX_ITERATIONS {
            ProgressView::Done(Err(ErrorView::MaxIterations(DEFAULT_MAX_ITERATIONS as nat)))
        } else if !self.node_map().contains_key(current) {
            ProgressView::Done(Err(ErrorView::NodeNotFound(current)))
        } else {
            let node = self.node_map()[current];
            ProgressView::Pending(
                RunView { current, iterations, context: ctx, phase: Phase::Output },
                ActionView::Complete(
                    RequestView {
                        node: current,
                        system: option_view(node.system_prompt),
                        prompt: render_spec(node.prompt_template@, ctx),
                        model: node.model@,
                    },
                ),
            )
        }
    }

    /// The run at `current` looks at its outgoing edge `from`: past the last
    /// edge it is stuck; a direct edge is taken; a conditional one waits for
    /// its verdict.
    pub open spec fn select_spec(
        &self,
        current: Seq<char>,
        iterations: nat,
        ctx: Map<Seq<char>, JsonValueView>,
        from: nat,
    ) -> ProgressView {
        let edges = self.out_edges(current);
        if from >= edges.len() {
            ProgressView::Done(Err(ErrorView::DeadEnd(current)))
        } else if !edges[from as int].is_conditional() {
            self.enter_spec(edges[from as int].target_view(), iterations + 1, ctx)
        } else {
            ProgressView::Pending(
                RunView { current, iterations, context: ctx, phase: Phase::Verdict(from as usize) },
                ActionView::Test { from: current, edge: from },
            )
        }
    }

    /// Checked before a run starts: no edge may point to an unknown node.
    pub open spec fn validation_spec(&self) -> Result<(), ErrorView> {
        let unknown = unknown_targets_spec(self.node_map(), self.edge_entries());
        if unknown.len() > 0 {
            Err(ErrorView::Config(unknown_edges_message(unknown)))
        } else {
            Ok(())
        }
    }

    /// How a run with context `ctx` starts.
    pub open spec fn start_spec(&self, ctx: Map<Seq<char>, JsonValueView>) -> ProgressView {
        match self.validation_spec() {
            Err(e) => ProgressView::Done(Err(e)),
            Ok(_) => match self.entry_view() {
                None => ProgressView::Done(Err(ErrorView::Config("workflow has no entry node"@))),
                Some(e) => self.enter_spec(e, 0, ctx),
            },
        }
    }

    /// How a run moves on once it gets `event`: an answer is recorded and the
    /// first edge is looked at; a passing verdict takes its edge; a failing
    /// one moves to the next edge.
    pub open spec fn step_spec(&self, run: RunView, event: EventView) -> ProgressView {
        match event {
            EventView::Output(Err(e)) => ProgressView::Done(Err(e)),
            EventView::Output(Ok(text)) => self.select_spec(
                run.current,
                run.iterations,
                recorded(run.context, run.current, text),
                0,
            ),
            EventView::Verdict(v) => match run.phase {
                Phase::Verdict(i) => if v {
                    let edges = self.out_edges(run.current);
                    if i < edges.len() {
                        self.enter_spec(edges[i as int].target_view(), run.iterations + 1, run.context)
                    } else {
                        ProgressView::Done(Err(ErrorView::DeadEnd(run.current)))
                    }
                } else {
                    self.select_spec(run.current, run.iterations, run.context, (i + 1) as nat)
                },
                Phase::Output => ProgressView::Done(Err(ErrorView::DeadEnd(run.current))),
            },
        }
    }

    pub fn new() -> (w: Self)
        ensures
            w.node_map() == Map::<Seq<char>, Node<P>>::empty(),
            w.node_keys() == Seq::<Seq<char>>::empty(),
            w.edge_map() == Map::<Seq<char>, Vec<Edge<C>>>::empty(),
            w.edge_entries() == Seq::<(String, Vec<Edge<C>>)>::empty(),
            w.entry_view() is None,
    {
        let w = Workflow { nodes: Table::new(), adj: Table::new(), entry: None };
        assert(w.node_keys() =~= Seq::<Seq<char>>::empty());
        w
    }

    /// Makes `id` the entry node.
    pub fn set_entry(&mut self, id: String)
        ensures
            final(self).entry_view() == entry_after_step(old(self).entry_view(), BuildStep::SetEntry(id@)),
            final(self).node_map() == old(self).node_map(),
            final(self).node_keys() == old(self).node_keys(),
            final(self).edge_map() == old(self).edge_map(),
            final(self).edge_entries() == old(self).edge_entries(),
    {
        self.entry = Some(id);
    }

    /// Adds (or replaces) a node under its id. The first node added becomes
    /// the entry unless one was set.
    pub fn add_node(&mut self, node: Node<P>)
        ensures
            final(self).node_map() == old(self).node_map().insert(node.id@, node),
            old(self).node_map().contains_key(node.id@) ==> final(self).node_keys() == old(self).node_keys(),
            !old(self).node_map().contains_key(node.id@) ==> final(self).node_keys()
                == old(self).node_keys().push(node.id@),
            final(self).entry_view() == entry_after_step(old(self).entry_view(), BuildStep::AddNode(node.id@)),
            final(self).edge_map() == old(self).edge_map(),
            final(self).edge_entries() == old(self).edge_entries(),
    {
        if self.entry.is_none() {
            self.entry = Some(node.id.clone());
        }
        let id = node.id.clone();
        self.nodes.insert(id, node);
    }

    fn push_edge(&mut self, from: &str, edge: Edge<C>)
        ensures
            final(self).out_edges(from@) == old(self).out_edges(from@).push(edge),
            forall|k: Seq<char>| k != from@ ==> final(self).out_edges(k) == old(self).out_edges(k),
            final(self).edge_map().dom() == old(self).edge_map().dom().insert(from@),
            old(self).edge_map().contains_key(from@) ==> final(self).adj.key_seq() == old(self).adj.key_seq(),
            !old(self).edge_map().contains_key(from@) ==> final(self).adj.key_seq()
                == old(self).adj.key_seq().push(from@),
            final(self).node_map() == old(self).node_map(),
            final(self).node_keys() == old(self).node_keys(),
            final(self).entry_view() == old(self).entry_view(),
    {
        let ghost e = edge;
        match self.adj.insert(String::from_str(from), Vec::new()) {
            Some(mut edges) => {
                edges.push(edge);
                self.adj.insert(String::from_str(from), edges);
            },
            None => {
                let mut edges = Vec::new();
                edges.push(edge);
                self.adj.insert(String::from_str(from), edges);
            },
        }
        assert(final(self).out_edges(from@) =~= old(self).out_edges(from@).push(e));
    }

    /// Adds a direct edge `from -> to`.
    pub fn add_edge(&mut self, from: &str, to: &str)
        ensures
            final(self).out_edges(from@).len() == old(self).out_edges(from@).len() + 1,
            final(self).out_edges(from@).drop_last() == old(self).out_edges(from@),
            final(self).out_edges(from@).last() is Direct,
            final(self).out_edges(from@).last().target_view() == to@,
            forall|k: Seq<char>| k != from@ ==> final(self).out_edges(k) == old(self).out_edges(k),
            old(self).edge_map().contains_key(from@) ==> final(self).edge_keys() == old(self).edge_keys(),
            !old(self).edge_map().contains_key(from@) ==> final(self).edge_keys() == old(self).edge_keys().push(
                from@,
            ),
            final(self).node_map() == old(self).node_map(),
            final(self).node_keys() == old(self).node_keys(),
            final(self).entry_view() == old(self).entry_view(),
    {
        let ghost before = self.out_edges(from@);
        self.push_edge(from, Edge::direct(String::from_str(to)));
        assert(self.out_edges(from@).drop_last() =~= before);
    }

    /// Adds an edge `from -> to` that is taken only when `condition` holds.
    pub fn add_conditional_edge(&mut self, from: &str, to: &str, condition: C)
        ensures
            final(self).out_edges(from@).len() == old(self).out_edges(from@).len() + 1,
            final(self).out_edges(from@).drop_last() == old(self).out_edges(from@),
            final(self).out_edges(from@).last() matches Edge::Conditional { condition: c, .. } && c
                == condition,
            final(self).out_edges(from@).last().target_view() == to@,
            forall|k: Seq<char>| k != from@ ==> final(self).out_edges(k) == old(self).out_edges(k),
            old(self).edge_map().contains_key(from@) ==> final(self).edge_keys() == old(self).edge_keys(),
            !old(self).edge_map().contains_key(from@) ==> final(self).edge_keys() == old(self).edge_keys().push(
                from@,
            ),
            final(self).node_map() == old(self).node_map(),
            final(self).node_keys() == old(self).node_keys(),
            final(self).entry_view() == old(self).entry_view(),
    {
        let ghost before = self.out_edges(from@);
        self.push_edge(from, Edge::conditional(String::from_str(to), condition));
        assert(self.out_edges(from@).drop_last() =~= before);
    }
}

impl<P, C> Default for Workflow<P, C> {
    fn default() -> (w: Self)
        ensures
            w.node_map() == Map::<Seq<char>, Node<P>>::empty(),
            w.edge_map() == Map::<Seq<char>, Vec<Edge<C>>>::empty(),
            w.entry_view() is None,
    {
        Self::new()
    }
}

impl<P, C> Workflow<P, C> {
    /// The node with id `id`.
    pub fn node(&self, id: &str) -> (r: Option<&Node<P>>)
        ensures
            match r {
                Some(n) => self.node_map().contains_key(id@) && self.node_map()[id@] == *n,
                None => !self.node_map().contains_key(id@),
            },
    {
        self.nodes.get(id)
    }

    /// The edges that leave `from`, if any was ever added.
    pub fn edges(&self, from: &str) -> (r: Option<&Vec<Edge<C>>>)
        ensures
            match r {
                Some(es) => self.edge_map().contains_key(from@) && self.out_edges(from@) == es@,
                None => !self.edge_map().contains_key(from@),
            },
    {
        self.adj.get(from)
    }

    /// The nodes, by id.
    pub fn nodes(&self) -> (t: &Table<Node<P>>)
        ensures
            t@ == self.node_map(),
            t.key_seq() == self.node_keys(),
    {
        &self.nodes
    }

    /// The outgoing edges, by source.
    pub fn adjacency(&self) -> (t: &Table<Vec<Edge<C>>>)
        ensures
            t@ == self.edge_map(),
            t.entry_seq() == self.edge_entries(),
            keys_distinct(self.edge_entries()),
    {
        proof {
            use_type_invariant(&self.adj);
        }
        &self.adj
    }

    /// The three views of the edges agree: the map by source is the one
    /// that the entries stand for, and the sources are the entries' keys.
    pub proof fn lemma_edge_views(&self)
        ensures
            self.edge_map() == entries_map(self.edge_entries()),
            self.edge_keys() == self.edge_entries().map_values(|e: (String, Vec<Edge<C>>)| e.0@),
    {
    }

    /// Refuses a workflow with an edge that points to no node (and not to
    /// the exit), naming every such edge.
    pub fn validate(&self) -> (r: OrchestratorResult<()>)
        ensures
            match r {
                Ok(_) => self.validation_spec() is Ok,
                Err(e) => self.validation_spec() == Err::<(), ErrorView>(e@),
            },
    {
        let unknowns = unknown_targets(&self.nodes, &self.adj);
        let ghost pv = pairs_view(unknowns@);
        if unknowns.len() > 0 {
            let mut msg = String::from_str("edges point to unknown nodes: ");
            let mut i: usize = 0;
            assert(pv.take(0) =~= Seq::<(Seq<char>, Seq<char>)>::empty());
            while i < unknowns.len()
                invariant
                    i <= unknowns@.len(),
                    pv == pairs_view(unknowns@),
                    msg@ == "edges point to unknown nodes: "@ + describe_pairs(pv.take(i as int)),
                decreases unknowns@.len() - i,
            {
                let ghost before = msg@;
                if i > 0 {
                    msg.append(", ");
                }
                msg.append(unknowns[i].0.as_str());
                msg.append(" -> ");
                msg.append(unknowns[i].1.as_str());
                let ghost item = pv[i as int].0 + " -> "@ + pv[i as int].1;
                assert(pv.take(i + 1).drop_last() =~= pv.take(i as int));
                if i > 0 {
                    assert(msg@ =~= before + ", "@ + item);
                } else {
                    assert(msg@ =~= before + item);
                    assert(describe_pairs(pv.take(0)) =~= Seq::<char>::empty());
                }
                i = i + 1;
            }
            assert(pv.take(i as int) =~= pv);
            return Err(OrchestratorError::Config(msg));
        }
        Ok(())
    }

    /// The run arrives at `current`.
    fn enter(&self, current: String, iterations: usize, ctx: Context) -> (p: Progress)
        requires
            iterations <= DEFAULT_MAX_ITERATIONS,
        ensures
            p@ == self.enter_spec(current@, iterations as nat, ctx@),
    {
        if is_exit(current.as_str()) {
            return Progress::Done(Ok(ctx));
        }
        if iterations >= DEFAULT_MAX_ITERATIONS {
            return Progress::Done(Err(OrchestratorError::MaxIterations(DEFAULT_MAX_ITERATIONS)));
        }
        match self.nodes.get(current.as_str()) {
            None => Progress::Done(Err(OrchestratorError::NodeNotFound(current))),
            Some(node) => {
                let prompt = match node.prompt(&ctx) {
                    Ok(p) => p,
                    Err(e) => return Progress::Done(Err(e)),
                };
                let system = match &node.system_prompt {
                    Some(s) => Some(s.clone()),
                    None => None,
                };
                let request = Request { node: current.clone(), system, prompt, model: node.model.clone() };
                let run = Run { current, iterations, context: ctx, phase: Phase::Output };
                Progress::Pending(run, Action::Complete(request))
            },
        }
    }

    /// The run at `current` looks at its outgoing edge `from`.
    fn select(&self, current: String, iterations: usize, ctx: Context, from: usize) -> (p: Progress)
        requires
            iterations < DEFAULT_MAX_ITERATIONS,
        ensures
            p@ == self.select_spec(current@, iterations as nat, ctx@, from as nat),
    {
        match self.adj.get(current.as_str()) {
            None => Progress::Done(Err(OrchestratorError::DeadEnd(current))),
            Some(edges) => {
                if from >= edges.len() {
                    return Progress::Done(Err(OrchestratorError::DeadEnd(current)));
                }
                match &edges[from] {
                    Edge::Direct { target } => self.enter(target.clone(), iterations + 1, ctx),
                    Edge::Conditional { .. } => {
                        let run = Run {
                            current: current.clone(),
                            iterations,
                            context: ctx,
                            phase: Phase::Verdict(from),
                        };
                        Progress::Pending(run, Action::Test { from: current, edge: from })
                    },
                }
            },
        }
    }

    /// Starts a run with context `ctx`: the workflow is validated, then the
    /// run enters the entry node.
    pub fn start(&self, ctx: Context) -> (p: Progress)
        ensures
            p@ == self.start_spec(ctx@),
    {
        match self.validate() {
            Err(e) => return Progress::Done(Err(e)),
            Ok(_) => {},
        }
        match &self.entry {
            None => Progress::Done(
                Err(OrchestratorError::Config(String::from_str("workflow has no entry node"))),
            ),
            Some(e) => self.enter(e.clone(), 0, ctx),
        }
    }

    /// Moves `run` on with the answer it waited for.
    pub fn step(&self, run: Run, event: Event) -> (p: Progress)
        requires
            accepts(run@, event@),
        ensures
            p@ == self.step_spec(run@, event@),
    {
        proof {
            use_type_invariant(&run);
        }
        let Run { current, iterations, context, phase } = run;
        match event {
            Event::Output(Err(e)) => Progress::Done(Err(e)),
            Event::Output(Ok(text)) => {
                let mut ctx = context;
                record(&mut ctx, current.as_str(), text);
                self.select(current, iterations, ctx, 0)
            },
            Event::Verdict(v) => match phase {
                Phase::Verdict(i) => {
                    let edges = match self.adj.get(current.as_str()) {
                        Some(edges) => edges,
                        None => return Progress::Done(Err(OrchestratorError::DeadEnd(current))),
                    };
                    if i >= edges.len() {
                        Progress::Done(Err(OrchestratorError::DeadEnd(current)))
                    } else if v {
                        let target = String::from_str(edges[i].target());
                        self.enter(target, iterations + 1, context)
                    } else {
                        self.select(current, iterations, context, i + 1)
                    }
                },
                Phase::Output => Progress::Done(Err(OrchestratorError::DeadEnd(current))),
            },
        }
    }
}

/// `p` is a prefix of `k`.
pub open spec fn starts_with(k: Seq<char>, p: Seq<char>) -> bool {
    k.len() >= p.len() && k.take(p.len() as int) == p
}

proof fn lemma_prefix_cancel(p: Seq<char>, a: Seq<char>, b: Seq<char>)
    ensures
        (p + a == p + b) == (a == b),
        starts_with(p + a, p),
{
    assert((p + a).take(p.len() as int) =~= p);
    if p + a == p + b {
        assert(a =~= (p + a).skip(p.len() as int));
        assert(b =~= (p + b).skip(p.len() as int));
    }
}

/// `k` is not the key of any field of `f` stored under `id`.
pub open spec fn untouched(id: Seq<char>, f: Seq<(Seq<char>, JsonValueView)>, k: Seq<char>) -> bool {
    forall|l: int| 0 <= l < f.len() ==> k != #[trigger] (id + "."@ + f[l].0)
}

/// Field `j` of `f` is the last one with its name.
pub open spec fn last_of_name(f: Seq<(Seq<char>, JsonValueView)>, j: int) -> bool {
    0 <= j < f.len() && forall|l: int| j < l < f.len() ==> #[trigger] f[l].0 != f[j].0
}

proof fn lemma_with_fields(
    ctx: Map<Seq<char>, JsonValueView>,
    id: Seq<char>,
    f: Seq<(Seq<char>, JsonValueView)>,
)
    ensures
        forall|k: Seq<char>|
            #![trigger with_fields(ctx, id, f).contains_key(k)]
            untouched(id, f, k) ==> with_fields(ctx, id, f).contains_key(k) == ctx.contains_key(k)
                && (ctx.contains_key(k) ==> with_fields(ctx, id, f)[k] == ctx[k]),
        forall|j: int|
            #![trigger last_of_name(f, j)]
            last_of_name(f, j) ==> with_fields(ctx, id, f).contains_key(id + "."@ + f[j].0)
                && with_fields(ctx, id, f)[id + "."@ + f[j].0] == f[j].1,
    decreases f.len(),
{
    if f.len() > 0 {
        let p = id + "."@;
        let k0 = id + "."@ + f[0].0;
        let next = ctx.insert(k0, f[0].1);
        let rest = f.drop_first();
        lemma_with_fields(next, id, rest);
        assert(with_fields(ctx, id, f) == with_fields(next, id, rest));
        assert forall|k: Seq<char>| untouched(id, f, k) implies with_fields(ctx, id, f).contains_key(k)
            == ctx.contains_key(k) && (ctx.contains_key(k) ==> with_fields(ctx, id, f)[k] == ctx[k]) by {
            assert(k != id + "."@ + f[0].0);
            assert forall|l: int| 0 <= l < rest.len() implies k != #[trigger] (id + "."@ + rest[l].0) by {
                assert(rest[l] == f[l + 1]);
                assert(k != id + "."@ + f[l + 1].0);
            }
            assert(untouched(id, rest, k));
            assert(with_fields(next, id, rest).contains_key(k) == next.contains_key(k));
        }
        assert forall|j: int| last_of_name(f, j) implies with_fields(ctx, id, f).contains_key(
            id + "."@ + f[j].0,
        ) && with_fields(ctx, id, f)[id + "."@ + f[j].0] == f[j].1 by {
            if j == 0 {
                assert forall|l: int| 0 <= l < rest.len() implies k0 != #[trigger] (id + "."@ + rest[l].0) by {
                    assert(rest[l] == f[l + 1]);
                    assert(f[l + 1].0 != f[0].0);
                    lemma_prefix_cancel(p, f[0].0, rest[l].0);
                }
                assert(untouched(id, rest, k0));
                assert(with_fields(next, id, rest).contains_key(k0) == next.contains_key(k0));
            } else {
                assert(rest[j - 1] == f[j]);
                assert forall|l: int| j - 1 < l < rest.len() implies #[trigger] rest[l].0 != rest[j - 1].0 by {
                    assert(rest[l] == f[l + 1]);
                }
                assert(last_of_name(rest, j - 1));
                assert(with_fields(next, id, rest).contains_key(id + "."@ + rest[j - 1].0));
            }
        }
    }
}

/// After node `id` answers `output`: `<id>.output` holds the answer as
/// text; when the answer is a JSON object, each of its fields other than
/// `output` is found under `<id>.<field>` (of fields that share a name, the
/// last); and no key outside `<id>.` is touched.
pub proof fn lemma_recorded_answer(ctx: Map<Seq<char>, JsonValueView>, id: Seq<char>, output: Seq<char>)
    ensures
        recorded(ctx, id, output).contains_key(id + ".output"@),
        recorded(ctx, id, output)[id + ".output"@] == JsonValueView::Text(output),
        forall|k: Seq<char>|
            !starts_with(k, id + "."@) ==> (#[trigger] recorded(ctx, id, output).contains_key(k)
                == ctx.contains_key(k) && (ctx.contains_key(k) ==> recorded(ctx, id, output)[k]
                == ctx[k])),
        json_object_fields(output) matches Some(f) ==> forall|j: int|
            #![trigger last_of_name(f, j)]
            last_of_name(f, j) && f[j].0 != "output"@ ==> recorded(ctx, id, output).contains_key(
                id + "."@ + f[j].0,
            ) && recorded(ctx, id, output)[id + "."@ + f[j].0] == f[j].1,
{
    let p = id + "."@;
    reveal_strlit(".output");
    reveal_strlit(".");
    reveal_strlit("output");
    assert(id + ".output"@ =~= p + "output"@);
    lemma_prefix_cancel(p, "output"@, "output"@);
    match json_object_fields(output) {
        Some(f) => {
            lemma_with_fields(ctx, id, f);
            assert forall|k: Seq<char>| !starts_with(k, p) implies #[trigger] recorded(ctx, id, output).contains_key(k)
                == ctx.contains_key(k) && (ctx.contains_key(k) ==> recorded(ctx, id, output)[k] == ctx[k]) by {
                assert forall|l: int| 0 <= l < f.len() implies k != #[trigger] (id + "."@ + f[l].0) by {
                    lemma_prefix_cancel(p, f[l].0, f[l].0);
                }
                assert(untouched(id, f, k));
                assert(with_fields(ctx, id, f).contains_key(k) == ctx.contains_key(k));
                assert(k != id + ".output"@);
            }
            assert forall|j: int| last_of_name(f, j) && f[j].0 != "output"@ implies recorded(ctx, id, output).contains_key(
                id + "."@ + f[j].0,
            ) && recorded(ctx, id, output)[id + "."@ + f[j].0] == f[j].1 by {
                lemma_prefix_cancel(p, f[j].0, "output"@);
                assert(with_fields(ctx, id, f).contains_key(id + "."@ + f[j].0));
            }
        },
        None => {
            assert forall|k: Seq<char>| !starts_with(k, p) implies #[trigger] recorded(ctx, id, output).contains_key(k)
                == ctx.contains_key(k) && (ctx.contains_key(k) ==> recorded(ctx, id, output)[k] == ctx[k]) by {
                assert(k != id + ".output"@);
            }
        },
    }
}

/// When node `id` answers a text that serde_json reads as an object, each
/// member of that object (of members that share a name, the last; the member
/// `output` aside, since the answer itself goes there) is found under
/// `<id>.<member>`, stored as its text or its JSON text.
pub proof fn lemma_object_answer_members_recorded(
    ctx: Map<Seq<char>, JsonValueView>,
    id: Seq<char>,
    output: Seq<char>,
    m: Seq<(Seq<char>, JsonTreeView)>,
)
    requires
        json_parse(output) == Some(JsonTreeView::Object(m)),
    ensures
        forall|j: int|
            #![trigger m[j]]
            0 <= j < m.len() && (forall|l: int| j < l < m.len() ==> m[l].0 != m[j].0) && m[j].0 != "output"@
                ==> recorded(ctx, id, output).contains_key(id + "."@ + m[j].0) && recorded(ctx, id, output)[id
                + "."@ + m[j].0] == stored_value(m[j].1),
{
    lemma_object_answers_give_all_their_members(output);
    lemma_recorded_answer(ctx, id, output);
    let f = json_object_fields(output)->0;
    assert forall|j: int|
        #![trigger m[j]]
        0 <= j < m.len() && (forall|l: int| j < l < m.len() ==> m[l].0 != m[j].0) && m[j].0 != "output"@
            implies recorded(ctx, id, output).contains_key(id + "."@ + m[j].0) && recorded(ctx, id, output)[id
            + "."@ + m[j].0] == stored_value(m[j].1) by {
        assert(f[j] == (m[j].0, stored_value(m[j].1)));
        assert forall|l: int| j < l < f.len() implies #[trigger] f[l].0 != f[j].0 by {
            assert(f[l] == (m[l].0, stored_value(m[l].1)));
        }
        assert(last_of_name(f, j));
    }
}

/// How far a run has got at its node: 0 while it waits for the node's
/// answer, `i + 1` while it waits for the verdict on edge `i`.
pub open spec fn phase_rank(phase: Phase) -> nat {
    match phase {
        Phase::Output => 0,
        Phase::Verdict(i) => i as nat + 1,
    }
}

/// A pending run and its action agree: a completion is asked of the node the
/// run stands on while the run waits for an answer; a verdict is asked on a
/// conditional edge that leaves that node, while the run waits for exactly
/// that verdict.
pub open spec fn consistent<P, C>(wf: &Workflow<P, C>, run: RunView, action: ActionView) -> bool {
    match action {
        ActionView::Complete(req) => run.phase == Phase::Output && req.node == run.current
            && wf.node_map().contains_key(run.current),
        ActionView::Test { from, edge } => {
            &&& run.phase == Phase::Verdict(edge as usize)
            &&& from == run.current
            &&& edge < wf.out_edges(run.current).len()
            &&& wf.out_edges(run.current)[edge as int].is_conditional()
        },
    }
}

/// Every pending run is consistent with its action, and has entered fewer
/// than `DEFAULT_MAX_ITERATIONS` nodes; so no run asks for more completions
/// than the budget allows.
pub proof fn lemma_pending_runs_are_consistent<P, C>(
    wf: &Workflow<P, C>,
    ctx: Map<Seq<char>, JsonValueView>,
    run: RunView,
    event: EventView,
)
    ensures
        wf.start_spec(ctx) matches ProgressView::Pending(r, a) ==> consistent(wf, r, a)
            && r.iterations < DEFAULT_MAX_ITERATIONS,
        run.iterations < DEFAULT_MAX_ITERATIONS ==> (wf.step_spec(run, event) matches ProgressView::Pending(
            r,
            a,
        ) ==> consistent(wf, r, a) && r.iterations < DEFAULT_MAX_ITERATIONS),
{
}

/// Every answer moves a run forward: it enters a further node, or looks at a
/// later edge of the same node. With the budget and the number of edges of
/// each node, this bounds how many steps a run takes.
pub proof fn lemma_step_moves_forward<P, C>(wf: &Workflow<P, C>, run: RunView, event: EventView)
    requires
        accepts(run, event),
    ensures
        wf.step_spec(run, event) matches ProgressView::Pending(r, _) ==> r.iterations
            > run.iterations || (r.iterations == run.iterations && phase_rank(r.phase) > phase_rank(
            run.phase,
        )),
{
    if wf.edge_map().contains_key(run.current) {
        let v = wf.edge_map()[run.current];
        assert(v.len() == v@.len());
    }
}

/// How many edges `es` holds in all.
pub open spec fn edge_count<C>(es: Seq<(String, Vec<Edge<C>>)>) -> nat
    decreases es.len(),
{
    if es.len() == 0 {
        0
    } else {
        edge_count(es.drop_last()) + es.last().1@.len()
    }
}

proof fn lemma_edge_count_bounds<C>(es: Seq<(String, Vec<Edge<C>>)>, k: int)
    requires
        0 <= k < es.len(),
    ensures
        es[k].1@.len() <= edge_count(es),
    decreases es.len(),
{
    if k < es.len() - 1 {
        lemma_edge_count_bounds(es.drop_last(), k);
    }
}

/// The edges that leave one node are among all the edges.
pub proof fn lemma_out_degree_bounded<P, C>(wf: &Workflow<P, C>, id: Seq<char>)
    ensures
        wf.out_edges(id).len() <= edge_count(wf.edge_entries()),
{
    if wf.edge_map().contains_key(id) {
        let es = wf.edge_entries();
        assert forall|i: int| 0 <= i < es.len() && #[trigger] es[i].0@ == id implies es[i].1@.len() <= edge_count(es) by {
            lemma_edge_count_bounds(es, i);
        }
        assert(wf.edge_map() == crate::table::entries_map(es));
    }
}

/// A bound on the steps a run may still take: each node it may still enter
/// counts for one more than the number of edges of the workflow, less what
/// it has already looked at in the node it stands on.
pub open spec fn steps_left<P, C>(wf: &Workflow<P, C>, run: RunView) -> int {
    (DEFAULT_MAX_ITERATIONS - run.iterations) * (edge_count(wf.edge_entries()) + 1) - phase_rank(run.phase)
}

/// Every run ends: each step of a pending run that waits no further than its
/// node's edges leaves a pending run with fewer steps left, and that number
/// never drops below zero.
pub proof fn lemma_runs_end<P, C>(wf: &Workflow<P, C>, run: RunView, event: EventView)
    requires
        accepts(run, event),
        run.iterations < DEFAULT_MAX_ITERATIONS,
        phase_rank(run.phase) <= wf.out_edges(run.current).len(),
    ensures
        steps_left(wf, run) > 0,
        wf.step_spec(run, event) matches ProgressView::Pending(r, _) ==> {
            &&& phase_rank(r.phase) <= wf.out_edges(r.current).len()
            &&& 0 < steps_left(wf, r) < steps_left(wf, run)
        },
{
    let e = edge_count(wf.edge_entries());
    lemma_out_degree_bounded(wf, run.current);
    lemma_pending_runs_are_consistent(wf, Map::empty(), run, event);
    lemma_step_moves_forward(wf, run, event);
    let m = DEFAULT_MAX_ITERATIONS - run.iterations;
    assert(m * (e + 1) >= e + 1) by (nonlinear_arith)
        requires
            m >= 1,
    ;
    match wf.step_spec(run, event) {
        ProgressView::Pending(r, a) => {
            lemma_out_degree_bounded(wf, r.current);
            assert(consistent(wf, r, a));
            let m2 = DEFAULT_MAX_ITERATIONS - r.iterations;
            assert(m2 * (e + 1) >= e + 1) by (nonlinear_arith)
                requires
                    m2 >= 1,
            ;
            if r.iterations > run.iterations {
                assert(m2 * (e + 1) + (e + 1) <= m * (e + 1)) by (nonlinear_arith)
                    requires
                        m2 + 1 <= m,
                ;
            }
        },
        _ => {},
    }
}

/// Edges are looked at in order, one at a time: after an answer the first
/// edge, after a failing verdict the next one.
pub proof fn lemma_edges_in_order<P, C>(wf: &Workflow<P, C>, run: RunView, event: EventView)
    requires
        accepts(run, event),
    ensures
        wf.step_spec(run, event) matches ProgressView::Pending(r, ActionView::Test { from, edge })
            ==> r.iterations == run.iterations && from == run.current && (match event {
            EventView::Output(_) => edge == 0,
            EventView::Verdict(_) => run.phase matches Phase::Verdict(i) && edge == i + 1,
        }),
{
}

/// Answers the tests that a run asks for, `verdicts[i]` for edge `i`, at
/// most `fuel` times, until it asks for something else or finishes.
pub open spec fn answer_tests<P, C>(
    wf: &Workflow<P, C>,
    p: ProgressView,
    verdicts: Seq<bool>,
    fuel: nat,
) -> ProgressView
    decreases fuel,
{
    match p {
        ProgressView::Pending(r, ActionView::Test { edge, .. }) => {
            if fuel > 0 && edge < verdicts.len() {
                answer_tests(wf, wf.step_spec(r, EventView::Verdict(verdicts[edge as int])), verdicts, (fuel - 1) as nat)
            } else {
                p
            }
        },
        _ => p,
    }
}

/// The first edge at or after `from` that passes: a direct edge, or a
/// conditional one whose verdict is true.
pub open spec fn first_passing<C>(edges: Seq<Edge<C>>, verdicts: Seq<bool>, from: nat) -> Option<nat>
    decreases edges.len() - from,
{
    if from >= edges.len() {
        None
    } else if !edges[from as int].is_conditional() || verdicts[from as int] {
        Some(from)
    } else {
        first_passing(edges, verdicts, from + 1)
    }
}

proof fn lemma_select_settles<P, C>(
    wf: &Workflow<P, C>,
    current: Seq<char>,
    iterations: nat,
    ctx: Map<Seq<char>, JsonValueView>,
    verdicts: Seq<bool>,
    from: nat,
)
    requires
        verdicts.len() >= wf.out_edges(current).len(),
        wf.out_edges(current).len() <= usize::MAX,
    ensures
        answer_tests(wf, wf.select_spec(current, iterations, ctx, from), verdicts, (wf.out_edges(current).len() - from) as nat)
            == match first_passing(wf.out_edges(current), verdicts, from) {
                Some(k) => wf.enter_spec(wf.out_edges(current)[k as int].target_view(), iterations + 1, ctx),
                None => ProgressView::Done(Err(ErrorView::DeadEnd(current))),
            },
    decreases wf.out_edges(current).len() - from,
{
    let edges = wf.out_edges(current);
    let fuel = (edges.len() - from) as nat;
    if from < edges.len() {
        let target = wf.enter_spec(edges[from as int].target_view(), iterations + 1, ctx);
        assert(answer_tests(wf, target, verdicts, (fuel - 1) as nat) == target);
        assert(answer_tests(wf, target, verdicts, fuel) == target);
        if edges[from as int].is_conditional() {
            let r = RunView { current, iterations, context: ctx, phase: Phase::Verdict(from as usize) };
            assert(((from as usize) + 1) as nat == from + 1);
            if verdicts[from as int] {
                assert(wf.step_spec(r, EventView::Verdict(true)) == target);
            } else {
                lemma_select_settles(wf, current, iterations, ctx, verdicts, from + 1);
                assert(wf.step_spec(r, EventView::Verdict(false)) == wf.select_spec(current, iterations, ctx, from + 1));
            }
        }
    }
}

/// Edges are tried in the order in which they were added, and the first one
/// that passes decides where the run goes: once a node has answered and the
/// verdicts asked for are given, the run enters the target of the first edge
/// that is direct or whose verdict is true; when there is none it is stuck.
pub proof fn lemma_first_passing_edge_decides<P, C>(
    wf: &Workflow<P, C>,
    run: RunView,
    text: Seq<char>,
    verdicts: Seq<bool>,
)
    requires
        run.phase == Phase::Output,
        verdicts.len() >= wf.out_edges(run.current).len(),
    ensures
        ({
            let ctx = recorded(run.context, run.current, text);
            let edges = wf.out_edges(run.current);
            answer_tests(wf, wf.step_spec(run, EventView::Output(Ok(text))), verdicts, edges.len())
                == match first_passing(edges, verdicts, 0) {
                    Some(k) => wf.enter_spec(edges[k as int].target_view(), run.iterations + 1, ctx),
                    None => ProgressView::Done(Err(ErrorView::DeadEnd(run.current))),
                }
        }),
{
    if wf.edge_map().contains_key(run.current) {
        let v = wf.edge_map()[run.current];
        assert(v.len() == v@.len());
    }
    lemma_select_settles(wf, run.current, run.iterations, recorded(run.context, run.current, text), verdicts, 0);
}

/// A run finishes successfully only by taking an edge into `exit`; it then
/// hands back its context (with the last answer recorded).
pub proof fn lemma_success_only_through_exit<P, C>(wf: &Workflow<P, C>, run: RunView, event: EventView)
    requires
        accepts(run, event),
    ensures
        wf.step_spec(run, event) matches ProgressView::Done(Ok(c)) ==> {
            &&& exists|i: int|
                0 <= i < wf.out_edges(run.current).len() && #[trigger] wf.out_edges(
                    run.current,
                )[i].target_view() == exit_id()
            &&& match event {
                EventView::Output(Ok(text)) => c == recorded(run.context, run.current, text),
                _ => c == run.context,
            }
        },
{
    match wf.step_spec(run, event) {
        ProgressView::Done(Ok(c)) => {
            let edges = wf.out_edges(run.current);
            match event {
                EventView::Output(Ok(text)) => {
                    assert(edges[0].target_view() == exit_id());
                },
                EventView::Verdict(v) => {
                    if let Phase::Verdict(i) = run.phase {
                        if v {
                            assert(edges[i as int].target_view() == exit_id());
                        } else {
                            assert(edges[i + 1].target_view() == exit_id());
                        }
                    }
                },
                _ => {},
            }
        },
        _ => {},
    }
}

/// A workflow passes validation exactly when every edge, direct or
/// conditional, leads to a node or to `exit`.
pub proof fn lemma_validation_checks_every_edge<P, C>(wf: &Workflow<P, C>)
    ensures
        wf.validation_spec() is Ok <==> forall|s: Seq<char>, t: Seq<char>|
            #[trigger] has_edge(wf.edge_entries(), s, t) ==> wf.node_map().contains_key(t) || t == exit_id(),
{
    let u = unknown_targets_spec(wf.node_map(), wf.edge_entries());
    if u.len() > 0 {
        lemma_unknown_targets_are_the_dangling_edges(wf.node_map(), wf.edge_entries(), u[0].0, u[0].1);
        assert(u.contains((u[0].0, u[0].1)));
    } else {
        assert forall|s: Seq<char>, t: Seq<char>| #[trigger] has_edge(wf.edge_entries(), s, t) implies wf.node_map().contains_key(t)
            || t == exit_id() by {
            lemma_unknown_targets_are_the_dangling_edges(wf.node_map(), wf.edge_entries(), s, t);
        }
    }
}

/// A failed completion ends the run with exactly the error handed back,
/// whatever the run: no answer is recorded, no edge is looked at and no node
/// is entered.
pub proof fn lemma_failed_completion_ends_the_run<P, C>(wf: &Workflow<P, C>, run: RunView, e: ErrorView)
    ensures
        wf.step_spec(run, EventView::Output(Err(e))) == ProgressView::Done(Err(e)),
{
}

/// A workflow with an edge that points to no node runs no node: it is
/// refused with a configuration error naming every such edge.
pub proof fn lemma_dangling_edges_refused<P, C>(wf: &Workflow<P, C>, ctx: Map<Seq<char>, JsonValueView>)
    requires
        unknown_targets_spec(wf.node_map(), wf.edge_entries()).len() > 0,
    ensures
        wf.start_spec(ctx) == ProgressView::Done(
            Err(ErrorView::Config(unknown_edges_message(unknown_targets_spec(wf.node_map(), wf.edge_entries())))),
        ),
{
}

} // verus!
