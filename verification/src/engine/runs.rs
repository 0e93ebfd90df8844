use vstd::prelude::*;
use crate::context::JsonValueView;
use crate::engine::graph::{exit_id, unknown_targets_spec};
use crate::engine::template::render_spec;
use crate::engine::workflow::{
    ActionView, DEFAULT_MAX_ITERATIONS, EventView, Phase, ProgressView, RequestView, RunView, Workflow,
    option_view,
    answer_tests, consistent, first_passing, lemma_first_passing_edge_decides,
    lemma_pending_runs_are_consistent, lemma_recorded_answer, recorded, starts_with,
    unknown_edges_message,
};
use crate::error::ErrorView;

verus! {

/// Where a run of `wf` from context `ctx` stands once `events` have been
/// handed back to it in turn. Events that come after the run has finished
/// change nothing.
pub open spec fn run_after<P, C>(
    wf: &Workflow<P, C>,
    ctx: Map<Seq<char>, JsonValueView>,
    events: Seq<EventView>,
) -> ProgressView
    decreases events.len(),
{
    if events.len() == 0 {
        wf.start_spec(ctx)
    } else {
        match run_after(wf, ctx, events.drop_last()) {
            ProgressView::Pending(r, _) => wf.step_spec(r, events.last()),
            done => done,
        }
    }
}

/// The run asks for a completion.
pub open spec fn asks_completion(p: ProgressView) -> bool {
    p matches ProgressView::Pending(_, ActionView::Complete(_))
}

/// How many completions a run has asked for, from its start until `events`
/// have been handed back.
pub open spec fn completions<P, C>(
    wf: &Workflow<P, C>,
    ctx: Map<Seq<char>, JsonValueView>,
    events: Seq<EventView>,
) -> nat
    decreases events.len(),
{
    let now: nat = if asks_completion(run_after(wf, ctx, events)) {
        1
    } else {
        0
    };
    if events.len() == 0 {
        now
    } else {
        completions(wf, ctx, events.drop_last()) + now
    }
}

/// The nodes a run has stood on, from its start until `events` have been
/// handed back.
pub open spec fn visited<P, C>(
    wf: &Workflow<P, C>,
    ctx: Map<Seq<char>, JsonValueView>,
    events: Seq<EventView>,
) -> Set<Seq<char>>
    decreases events.len(),
{
    let now = match run_after(wf, ctx, events) {
        ProgressView::Pending(r, _) => set![r.current],
        _ => Set::empty(),
    };
    if events.len() == 0 {
        now
    } else {
        visited(wf, ctx, events.drop_last()).union(now)
    }
}

/// The last answer that node `id` gave in a run, once `events` have been
/// handed back.
pub open spec fn last_answer<P, C>(
    wf: &Workflow<P, C>,
    ctx: Map<Seq<char>, JsonValueView>,
    events: Seq<EventView>,
    id: Seq<char>,
) -> Option<Seq<char>>
    decreases events.len(),
{
    if events.len() == 0 {
        None
    } else {
        let before = last_answer(wf, ctx, events.drop_last(), id);
        match run_after(wf, ctx, events.drop_last()) {
            ProgressView::Pending(r, _) => match events.last() {
                EventView::Output(Ok(text)) => if r.current == id {
                    Some(text)
                } else {
                    before
                },
                _ => before,
            },
            _ => before,
        }
    }
}

/// Key `k` lies under none of the nodes `ids`.
pub open spec fn outside(k: Seq<char>, ids: Set<Seq<char>>) -> bool {
    forall|id: Seq<char>| #[trigger] ids.contains(id) ==> !starts_with(k, id + "."@)
}

/// `c` holds what `ctx` holds at every key that lies under none of `ids`.
pub open spec fn agrees_outside(
    c: Map<Seq<char>, JsonValueView>,
    ctx: Map<Seq<char>, JsonValueView>,
    ids: Set<Seq<char>>,
) -> bool {
    forall|k: Seq<char>|
        #![trigger c.contains_key(k)]
        #![trigger ctx.contains_key(k)]
        outside(k, ids) ==> c.contains_key(k) == ctx.contains_key(k) && (ctx.contains_key(k) ==> c[k]
            == ctx[k])
}

/// The context that a step from `run` on `event` carries on with.
pub open spec fn step_context(run: RunView, event: EventView) -> Map<Seq<char>, JsonValueView> {
    match event {
        EventView::Output(Ok(text)) => recorded(run.context, run.current, text),
        _ => run.context,
    }
}

/// The context of a progress: that of its run, or the one it finished with.
pub open spec fn progress_context(p: ProgressView) -> Option<Map<Seq<char>, JsonValueView>> {
    match p {
        ProgressView::Pending(r, _) => Some(r.context),
        ProgressView::Done(Ok(c)) => Some(c),
        _ => None,
    }
}

proof fn lemma_enter<P, C>(wf: &Workflow<P, C>, t: Seq<char>, n: nat, c: Map<Seq<char>, JsonValueView>)
    ensures
        wf.enter_spec(t, n, c) matches ProgressView::Pending(r, a) ==> {
            &&& a is Complete
            &&& r.iterations == n
            &&& r.current == t
            &&& r.context == c
            &&& wf.node_map().contains_key(t)
        },
        wf.enter_spec(t, n, c) matches ProgressView::Done(Ok(d)) ==> d == c,
{
}

proof fn lemma_select<P, C>(
    wf: &Workflow<P, C>,
    cur: Seq<char>,
    n: nat,
    c: Map<Seq<char>, JsonValueView>,
    from: nat,
)
    ensures
        wf.select_spec(cur, n, c, from) matches ProgressView::Pending(r, a) ==> r.context == c && (
        (a is Complete && r.iterations == n + 1) || (a is Test && r.iterations == n && r.current
            == cur)),
        wf.select_spec(cur, n, c, from) matches ProgressView::Done(Ok(d)) ==> d == c,
{
    let edges = wf.out_edges(cur);
    if from < edges.len() && !edges[from as int].is_conditional() {
        lemma_enter(wf, edges[from as int].target_view(), n + 1, c);
    }
}

/// One step from a pending run: a new completion is asked exactly when the
/// run enters a node, which counts one more node; a test keeps the count and
/// the node; the context carried on is the step's.
proof fn lemma_step<P, C>(wf: &Workflow<P, C>, run: RunView, event: EventView)
    ensures
        wf.step_spec(run, event) matches ProgressView::Pending(r, a) ==> r.context == step_context(
            run,
            event,
        ) && ((a is Complete && r.iterations == run.iterations + 1) || (a is Test && r.iterations
            == run.iterations && r.current == run.current)),
        wf.step_spec(run, event) matches ProgressView::Done(Ok(d)) ==> d == step_context(run, event),
{
    match event {
        EventView::Output(Ok(text)) => {
            lemma_select(wf, run.current, run.iterations, recorded(run.context, run.current, text), 0);
        },
        EventView::Verdict(v) => match run.phase {
            Phase::Verdict(i) => {
                let edges = wf.out_edges(run.current);
                if v {
                    if i < edges.len() {
                        lemma_enter(wf, edges[i as int].target_view(), run.iterations + 1, run.context);
                    }
                } else {
                    lemma_select(wf, run.current, run.iterations, run.context, (i + 1) as nat);
                }
            },
            _ => {},
        },
        _ => {},
    }
}

/// What holds of every point of a run: the completions asked so far, one
/// per node entered and never more than the budget; the run stands on a node
/// it has visited; and its context holds what the starting context held at
/// every key outside the nodes visited.
proof fn lemma_trace<P, C>(
    wf: &Workflow<P, C>,
    ctx: Map<Seq<char>, JsonValueView>,
    events: Seq<EventView>,
)
    ensures
        completions(wf, ctx, events) <= DEFAULT_MAX_ITERATIONS,
        run_after(wf, ctx, events) matches ProgressView::Pending(r, _) ==> {
            &&& completions(wf, ctx, events) == r.iterations + 1
            &&& r.iterations < DEFAULT_MAX_ITERATIONS
            &&& wf.node_map().contains_key(r.current)
            &&& visited(wf, ctx, events).contains(r.current)
        },
        progress_context(run_after(wf, ctx, events)) matches Some(c) ==> agrees_outside(
            c,
            ctx,
            visited(wf, ctx, events),
        ),
    decreases events.len(),
{
    let now = run_after(wf, ctx, events);
    if events.len() == 0 {
        match wf.validation_spec() {
            Ok(_) => match wf.entry_view() {
                Some(e) => lemma_enter(wf, e, 0, ctx),
                None => {},
            },
            Err(_) => {},
        }
    } else {
        let prev = events.drop_last();
        let ev = events.last();
        lemma_trace(wf, ctx, prev);
        let v0 = visited(wf, ctx, prev);
        let v1 = visited(wf, ctx, events);
        match run_after(wf, ctx, prev) {
            ProgressView::Pending(r, _) => {
                lemma_step(wf, r, ev);
                lemma_pending_runs_are_consistent(wf, ctx, r, ev);
                let sc = step_context(r, ev);
                assert forall|k: Seq<char>| !starts_with(k, r.current + "."@) implies #[trigger] sc.contains_key(k)
                    == r.context.contains_key(k) && (r.context.contains_key(k) ==> sc[k] == r.context[k]) by {
                    match ev {
                        EventView::Output(Ok(text)) => lemma_recorded_answer(r.context, r.current, text),
                        _ => {},
                    }
                }
                match progress_context(now) {
                    Some(c) => {
                        assert(c == sc);
                        assert forall|k: Seq<char>| #[trigger] outside(k, v1) implies c.contains_key(k) == ctx.contains_key(k)
                            && (ctx.contains_key(k) ==> c[k] == ctx[k]) by {
                            assert(v1.contains(r.current));
                            assert(!starts_with(k, r.current + "."@));
                            assert forall|id: Seq<char>| #[trigger] v0.contains(id) implies !starts_with(k, id + "."@) by {
                                assert(v1.contains(id));
                            }
                            assert(outside(k, v0));
                            assert(sc.contains_key(k) == r.context.contains_key(k));
                            assert(r.context.contains_key(k) == ctx.contains_key(k));
                        }
                    },
                    None => {},
                }
            },
            _ => {
                assert(now == run_after(wf, ctx, prev));
                assert(v1 =~= v0);
            },
        }
    }
}

/// No node's `output` key lies under another node: no id `b` extends an id
/// `a` in the form `a.…` so that `b.output` starts with `a.`.
pub open spec fn outputs_apart<P, C>(wf: &Workflow<P, C>) -> bool {
    forall|a: Seq<char>, b: Seq<char>|
        #![trigger wf.node_map().contains_key(a), wf.node_map().contains_key(b)]
        wf.node_map().contains_key(a) && wf.node_map().contains_key(b) && a != b ==> !starts_with(
            b + ".output"@,
            a + "."@,
        )
}

/// Where node `id` has answered, `c` holds its last answer under
/// `<id>.output`.
pub open spec fn answer_kept<P, C>(
    c: Map<Seq<char>, JsonValueView>,
    wf: &Workflow<P, C>,
    ctx: Map<Seq<char>, JsonValueView>,
    events: Seq<EventView>,
    id: Seq<char>,
) -> bool {
    match last_answer(wf, ctx, events, id) {
        Some(o) => wf.node_map().contains_key(id) && c.contains_key(id + ".output"@) && c[id
            + ".output"@] == JsonValueView::Text(o),
        None => true,
    }
}

/// `c` holds, under `<id>.output`, the last answer of every node `id` that
/// has answered.
pub open spec fn answers_kept<P, C>(
    c: Map<Seq<char>, JsonValueView>,
    wf: &Workflow<P, C>,
    ctx: Map<Seq<char>, JsonValueView>,
    events: Seq<EventView>,
) -> bool {
    forall|id: Seq<char>| #[trigger] answer_kept(c, wf, ctx, events, id)
}

proof fn lemma_answers<P, C>(
    wf: &Workflow<P, C>,
    ctx: Map<Seq<char>, JsonValueView>,
    events: Seq<EventView>,
)
    requires
        outputs_apart(wf),
    ensures
        progress_context(run_after(wf, ctx, events)) matches Some(c) ==> answers_kept(c, wf, ctx, events),
    decreases events.len(),
{
    if events.len() > 0 {
        let prev = events.drop_last();
        let ev = events.last();
        lemma_answers(wf, ctx, prev);
        lemma_trace(wf, ctx, prev);
        match run_after(wf, ctx, prev) {
            ProgressView::Pending(r, _) => {
                lemma_step(wf, r, ev);
                match progress_context(run_after(wf, ctx, events)) {
                    Some(c) => {
                        assert(c == step_context(r, ev));
                        assert forall|id: Seq<char>| #[trigger] answer_kept(c, wf, ctx, events, id) by {
                            assert(answer_kept(r.context, wf, ctx, prev, id));
                            match ev {
                                EventView::Output(Ok(text)) => {
                                    lemma_recorded_answer(r.context, r.current, text);
                                    if id != r.current {
                                        assert(last_answer(wf, ctx, prev, id) == last_answer(wf, ctx, events, id));
                                        if last_answer(wf, ctx, prev, id) is Some {
                                            assert(wf.node_map().contains_key(id));
                                            assert(!starts_with(id + ".output"@, r.current + "."@));
                                        }
                                    }
                                },
                                _ => {
                                    assert(last_answer(wf, ctx, prev, id) == last_answer(wf, ctx, events, id));
                                },
                            }
                        }
                    },
                    None => {},
                }
            },
            _ => {
                match progress_context(run_after(wf, ctx, events)) {
                    Some(c) => {
                        assert forall|id: Seq<char>| #[trigger] answer_kept(c, wf, ctx, events, id) by {
                            assert(answer_kept(c, wf, ctx, prev, id));
                        }
                    },
                    None => {},
                }
            },
        }
    }
}

/// A workflow with an edge that points to no node is refused before it
/// runs, however the run would be driven: it asks for no completion and no
/// verdict, and ends with the configuration error that names every such edge.
pub proof fn lemma_dangling_edges_stop_every_run<P, C>(
    wf: &Workflow<P, C>,
    ctx: Map<Seq<char>, JsonValueView>,
    events: Seq<EventView>,
)
    requires
        unknown_targets_spec(wf.node_map(), wf.edge_entries()).len() > 0,
    ensures
        run_after(wf, ctx, events) == ProgressView::Done(
            Err(ErrorView::Config(unknown_edges_message(unknown_targets_spec(wf.node_map(), wf.edge_entries())))),
        ),
        completions(wf, ctx, events) == 0,
    decreases events.len(),
{
    if events.len() > 0 {
        lemma_dangling_edges_stop_every_run(wf, ctx, events.drop_last());
    }
}

/// However a run is driven, it asks for at most `DEFAULT_MAX_ITERATIONS`
/// completions: one for each node it enters, counting the one it waits on.
/// Once it has asked for that many, no step asks for another.
pub proof fn lemma_completions_within_budget<P, C>(
    wf: &Workflow<P, C>,
    ctx: Map<Seq<char>, JsonValueView>,
    events: Seq<EventView>,
)
    ensures
        completions(wf, ctx, events) <= DEFAULT_MAX_ITERATIONS,
        run_after(wf, ctx, events) matches ProgressView::Pending(r, _) ==> completions(wf, ctx, events)
            == r.iterations + 1,
        events.len() > 0 && completions(wf, ctx, events.drop_last()) == DEFAULT_MAX_ITERATIONS
            ==> !asks_completion(run_after(wf, ctx, events)),
{
    lemma_trace(wf, ctx, events);
}

/// A run that stops on its budget (and not on an error handed back to it)
/// has asked for exactly `DEFAULT_MAX_ITERATIONS` completions, and stops
/// because the edge that its last node chose leads to a node, not to `exit`.
pub proof fn lemma_budget_stop<P, C>(
    wf: &Workflow<P, C>,
    ctx: Map<Seq<char>, JsonValueView>,
    events: Seq<EventView>,
)
    requires
        events.len() > 0,
        run_after(wf, ctx, events.drop_last()) is Pending,
        !(events.last() is Output && events.last()->Output_0 is Err),
        run_after(wf, ctx, events) == ProgressView::Done(
            Err(ErrorView::MaxIterations(DEFAULT_MAX_ITERATIONS as nat)),
        ),
    ensures
        completions(wf, ctx, events) == DEFAULT_MAX_ITERATIONS,
        completions(wf, ctx, events.drop_last()) == DEFAULT_MAX_ITERATIONS,
{
    lemma_trace(wf, ctx, events.drop_last());
    match run_after(wf, ctx, events.drop_last()) {
        ProgressView::Pending(r, _) => {
            let ev = events.last();
            match ev {
                EventView::Output(Ok(text)) => {
                    let edges = wf.out_edges(r.current);
                    if edges.len() > 0 && !edges[0].is_conditional() {
                        assert(r.iterations + 1 >= DEFAULT_MAX_ITERATIONS);
                    }
                },
                _ => {},
            }
        },
        _ => {},
    }
}

/// However a run is driven, its context (while it runs, and the one it
/// finishes with) holds what the starting context held at every key that
/// lies under none of the nodes it has visited; no other key appears.
pub proof fn lemma_keys_outside_visited_nodes_kept<P, C>(
    wf: &Workflow<P, C>,
    ctx: Map<Seq<char>, JsonValueView>,
    events: Seq<EventView>,
)
    ensures
        progress_context(run_after(wf, ctx, events)) matches Some(c) ==> agrees_outside(
            c,
            ctx,
            visited(wf, ctx, events),
        ),
{
    lemma_trace(wf, ctx, events);
}

/// Where no node's `output` key lies under another node, a run's context
/// (while it runs, and the one it finishes with) holds under `<id>.output`
/// the last answer of every node `id` that has answered.
pub proof fn lemma_last_answers_kept<P, C>(
    wf: &Workflow<P, C>,
    ctx: Map<Seq<char>, JsonValueView>,
    events: Seq<EventView>,
)
    requires
        outputs_apart(wf),
    ensures
        progress_context(run_after(wf, ctx, events)) matches Some(c) ==> answers_kept(c, wf, ctx, events),
{
    lemma_answers(wf, ctx, events);
}

/// However a run is driven, each completion it asks for is asked of the node
/// it stands on, with that node's system prompt and model and its template
/// rendered from the run's context at that point; the first is asked of the
/// entry node with the starting context. The context that the next step
/// works with (the conditions of the edges it tests, the next prompt) is the
/// run's context with the node's last answer recorded.
pub proof fn lemma_requests_follow_nodes<P, C>(
    wf: &Workflow<P, C>,
    ctx: Map<Seq<char>, JsonValueView>,
    events: Seq<EventView>,
)
    ensures
        run_after(wf, ctx, events) matches ProgressView::Pending(r, ActionView::Complete(req)) ==> {
            &&& wf.node_map().contains_key(r.current)
            &&& req == RequestView {
                node: r.current,
                system: option_view(wf.node_map()[r.current].system_prompt),
                prompt: render_spec(wf.node_map()[r.current].prompt_template@, r.context),
                model: wf.node_map()[r.current].model@,
            }
        },
        events.len() == 0 ==> (run_after(wf, ctx, events) matches ProgressView::Pending(r, _) ==> wf.entry_view()
            == Some(r.current) && r.context == ctx),
        events.len() > 0 ==> (run_after(wf, ctx, events.drop_last()) matches ProgressView::Pending(r, _)
            ==> (progress_context(run_after(wf, ctx, events)) matches Some(c) ==> c == step_context(
            r,
            events.last(),
        ))),
{
    if events.len() > 0 {
        match run_after(wf, ctx, events.drop_last()) {
            ProgressView::Pending(r, _) => lemma_step(wf, r, events.last()),
            _ => {},
        }
    }
}

/// No answer among `events` hands back a configuration error.
pub open spec fn no_config_handed_back(events: Seq<EventView>) -> bool {
    forall|i: int| 0 <= i < events.len() ==> !(#[trigger] events[i] matches EventView::Output(Err(ErrorView::Config(_))))
}

/// A workflow without dangling edges never ends with the error about them:
/// unless an answer hands a configuration error back, the only configuration
/// error that a run ends with is the one for a workflow without an entry.
pub proof fn lemma_config_error_only_without_entry<P, C>(
    wf: &Workflow<P, C>,
    ctx: Map<Seq<char>, JsonValueView>,
    events: Seq<EventView>,
)
    requires
        unknown_targets_spec(wf.node_map(), wf.edge_entries()).len() == 0,
        no_config_handed_back(events),
    ensures
        run_after(wf, ctx, events) matches ProgressView::Done(Err(ErrorView::Config(m))) ==> m
            == "workflow has no entry node"@ && wf.entry_view() is None,
    decreases events.len(),
{
    if events.len() > 0 {
        let prev = events.drop_last();
        assert(no_config_handed_back(prev)) by {
            assert forall|i: int| 0 <= i < prev.len() implies !(#[trigger] prev[i] matches EventView::Output(Err(ErrorView::Config(_)))) by {
                assert(prev[i] == events[i]);
            }
        }
        lemma_config_error_only_without_entry(wf, ctx, prev);
        assert(events[events.len() - 1] == events.last());
    } else {
        match wf.entry_view() {
            Some(e) => {
                lemma_enter(wf, e, 0, ctx);
            },
            None => {},
        }
    }
}

/// A pending run of `wf` and the action it asks for agree.
proof fn lemma_run_consistent<P, C>(
    wf: &Workflow<P, C>,
    ctx: Map<Seq<char>, JsonValueView>,
    events: Seq<EventView>,
)
    ensures
        run_after(wf, ctx, events) matches ProgressView::Pending(r, a) ==> consistent(wf, r, a),
{
    if events.len() == 0 {
        lemma_pending_runs_are_consistent(wf, ctx, RunView { current: Seq::empty(), iterations: 0, context: ctx, phase: Phase::Output }, EventView::Verdict(true));
    } else {
        let prev = events.drop_last();
        lemma_trace(wf, ctx, prev);
        match run_after(wf, ctx, prev) {
            ProgressView::Pending(r, _) => lemma_pending_runs_are_consistent(wf, ctx, r, events.last()),
            _ => {},
        }
    }
}

/// Where a run that stands at `p` is once `more` have been handed back.
pub open spec fn run_from<P, C>(wf: &Workflow<P, C>, p: ProgressView, more: Seq<EventView>) -> ProgressView
    decreases more.len(),
{
    if more.len() == 0 {
        p
    } else {
        match run_from(wf, p, more.drop_last()) {
            ProgressView::Pending(r, _) => wf.step_spec(r, more.last()),
            done => done,
        }
    }
}

proof fn lemma_run_from_concat<P, C>(wf: &Workflow<P, C>, p: ProgressView, a: Seq<EventView>, b: Seq<EventView>)
    ensures
        run_from(wf, p, a + b) == run_from(wf, run_from(wf, p, a), b),
    decreases b.len(),
{
    if b.len() == 0 {
        assert(a + b =~= a);
    } else {
        assert((a + b).drop_last() =~= a + b.drop_last());
        lemma_run_from_concat(wf, p, a, b.drop_last());
    }
}

proof fn lemma_run_after_concat<P, C>(
    wf: &Workflow<P, C>,
    ctx: Map<Seq<char>, JsonValueView>,
    events: Seq<EventView>,
    more: Seq<EventView>,
)
    ensures
        run_after(wf, ctx, events + more) == run_from(wf, run_after(wf, ctx, events), more),
    decreases more.len(),
{
    if more.len() == 0 {
        assert(events + more =~= events);
    } else {
        assert((events + more).drop_last() =~= events + more.drop_last());
        lemma_run_after_concat(wf, ctx, events, more.drop_last());
    }
}

/// The verdicts that a run standing at `p` asks for and gets, in turn, when
/// the verdict on edge `i` is `verdicts[i]`.
pub open spec fn verdicts_given<P, C>(wf: &Workflow<P, C>, p: ProgressView, verdicts: Seq<bool>, fuel: nat) -> Seq<EventView>
    decreases fuel,
{
    match p {
        ProgressView::Pending(r, ActionView::Test { edge, .. }) => {
            if fuel > 0 && edge < verdicts.len() {
                seq![EventView::Verdict(verdicts[edge as int])] + verdicts_given(
                    wf,
                    wf.step_spec(r, EventView::Verdict(verdicts[edge as int])),
                    verdicts,
                    (fuel - 1) as nat,
                )
            } else {
                Seq::empty()
            }
        },
        _ => Seq::empty(),
    }
}

proof fn lemma_verdicts_given<P, C>(wf: &Workflow<P, C>, p: ProgressView, verdicts: Seq<bool>, fuel: nat)
    ensures
        run_from(wf, p, verdicts_given(wf, p, verdicts, fuel)) == answer_tests(wf, p, verdicts, fuel),
    decreases fuel,
{
    match p {
        ProgressView::Pending(r, ActionView::Test { edge, .. }) => {
            if fuel > 0 && edge < verdicts.len() {
                let e = EventView::Verdict(verdicts[edge as int]);
                let next = wf.step_spec(r, e);
                let rest = verdicts_given(wf, next, verdicts, (fuel - 1) as nat);
                lemma_verdicts_given(wf, next, verdicts, (fuel - 1) as nat);
                lemma_run_from_concat(wf, p, seq![e], rest);
                assert(seq![e].drop_last() =~= Seq::<EventView>::empty());
                assert(run_from(wf, p, Seq::<EventView>::empty()) == p);
                assert(seq![e].last() == e);
                assert(run_from(wf, p, seq![e]) == next);
            }
        },
        _ => {},
    }
}

/// How a run goes on from each node it runs: once node `r.current` has
/// answered `text` and the verdicts that it then asks for have been handed
/// back (`verdicts[i]` for its edge `i`, each evaluated on the context with
/// the answer recorded), the run enters the target of the first edge that is
/// direct or whose verdict is true, with that context, and asks for the
/// target's completion with its prompt rendered from that context. The
/// target `exit` ends the run with that context; a node entered after ten
/// completions stops it with `MaxIterations`; with no passing edge the run
/// is stuck at its node.
pub proof fn lemma_next_node<P, C>(
    wf: &Workflow<P, C>,
    ctx: Map<Seq<char>, JsonValueView>,
    events: Seq<EventView>,
    text: Seq<char>,
    verdicts: Seq<bool>,
)
    requires
        asks_completion(run_after(wf, ctx, events)),
        verdicts.len() >= wf.out_edges(run_after(wf, ctx, events)->Pending_0.current).len(),
    ensures
        ({
            let r = run_after(wf, ctx, events)->Pending_0;
            let c = recorded(r.context, r.current, text);
            let edges = wf.out_edges(r.current);
            let answered = events.push(EventView::Output(Ok(text)));
            let tested = verdicts_given(wf, run_after(wf, ctx, answered), verdicts, edges.len());
            let next = run_after(wf, ctx, answered + tested);
            &&& completions(wf, ctx, events) == r.iterations + 1
            &&& match first_passing(edges, verdicts, 0) {
                None => next == ProgressView::Done(Err(ErrorView::DeadEnd(r.current))),
                Some(k) => {
                    let t = edges[k as int].target_view();
                    if t == exit_id() {
                        next == ProgressView::Done(Ok(c))
                    } else if completions(wf, ctx, events) == DEFAULT_MAX_ITERATIONS {
                        next == ProgressView::Done(Err(ErrorView::MaxIterations(DEFAULT_MAX_ITERATIONS as nat)))
                    } else if !wf.node_map().contains_key(t) {
                        next == ProgressView::Done(Err(ErrorView::NodeNotFound(t)))
                    } else {
                        &&& next matches ProgressView::Pending(r2, ActionView::Complete(req))
                        &&& r2.current == t
                        &&& r2.context == c
                        &&& r2.iterations == r.iterations + 1
                        &&& req.node == t
                        &&& req.prompt == render_spec(wf.node_map()[t].prompt_template@, c)
                    }
                },
            }
        }),
{
    let r = run_after(wf, ctx, events)->Pending_0;
    let edges = wf.out_edges(r.current);
    let answered = events.push(EventView::Output(Ok(text)));
    lemma_trace(wf, ctx, events);
    lemma_run_consistent(wf, ctx, events);
    assert(answered.drop_last() =~= events);
    let after = run_after(wf, ctx, answered);
    assert(after == wf.step_spec(r, EventView::Output(Ok(text))));
    let tested = verdicts_given(wf, after, verdicts, edges.len());
    lemma_run_after_concat(wf, ctx, answered, tested);
    lemma_verdicts_given(wf, after, verdicts, edges.len());
    lemma_first_passing_edge_decides(wf, r, text, verdicts);
}

} // verus!
