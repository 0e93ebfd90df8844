use std::cell::Cell;
use std::rc::Rc;

use agent_rotary::context::{Context, JsonValue};
use agent_rotary::engine::edge::Edge;
use agent_rotary::engine::node::Node;
use agent_rotary::engine::workflow::{
    Action, Event, Phase, Progress, Request, Workflow, DEFAULT_MAX_ITERATIONS, EXIT,
};
use agent_rotary::error::OrchestratorError;

type Cond = Box<dyn Fn(&Context) -> bool>;
type Flow = Workflow<&'static str, Cond>;

fn node(id: &str, provider: &'static str, template: &str) -> Node<&'static str> {
    Node::new(id.to_string(), provider, "model-x".to_string(), template.to_string(), None)
}

/// Runs `wf` to the end, answering completions with `answer` and evaluating
/// conditions on the run's context.
fn drive(
    wf: &Flow,
    ctx: Context,
    mut answer: impl FnMut(&Request, &Context) -> Result<String, OrchestratorError>,
) -> (Result<Context, OrchestratorError>, Vec<String>) {
    let mut visited = Vec::new();
    let mut progress = wf.start(ctx);
    loop {
        match progress {
            Progress::Done(r) => return (r, visited),
            Progress::Pending(run, Action::Complete(req)) => {
                assert_eq!(run.phase(), Phase::Output);
                visited.push(req.node.clone());
                let out = answer(&req, run.context());
                progress = wf.step(run, Event::Output(out));
            }
            Progress::Pending(run, Action::Test { from, edge }) => {
                assert_eq!(run.phase(), Phase::Verdict(edge));
                let verdict = match &wf.edges(&from).unwrap()[edge] {
                    Edge::Conditional { condition, .. } => condition(run.context()),
                    Edge::Direct { .. } => true,
                };
                progress = wf.step(run, Event::Verdict(verdict));
            }
        }
    }
}

fn score(ctx: &Context) -> f64 {
    ctx.get_str("grade.score").and_then(|s| s.parse().ok()).unwrap_or(0.0)
}

#[test]
fn plan_code_grade_loop_until_the_score_passes() {
    let mut wf: Flow = Workflow::new();
    wf.add_node(node("plan", "anthropic", "Outline for: {{user_request}}"));
    wf.add_node(node("code", "kimi", "Implement:\n{{plan.output}}\n{{grade.feedback|}}"));
    wf.add_node(node("grade", "codex", "Grade {{code.output}}"));
    wf.add_edge("plan", "code");
    wf.add_edge("code", "grade");
    wf.add_conditional_edge("grade", "code", Box::new(|c: &Context| score(c) < 8.0));
    wf.add_conditional_edge("grade", "exit", Box::new(|c: &Context| score(c) >= 8.0));

    let mut ctx = Context::new();
    ctx.set("user_request".to_string(), JsonValue::Text("a cache".to_string()));
    let mut grades = 0;
    let mut prompts = Vec::new();
    let (result, visited) = drive(&wf, ctx, |req, _| {
        prompts.push(req.prompt.clone());
        Ok(match req.node.as_str() {
            "plan" => "PLAN".to_string(),
            "code" => "CODE".to_string(),
            _ => {
                grades += 1;
                if grades == 1 {
                    "{\"score\": 5, \"feedback\": \"add tests\"}".to_string()
                } else {
                    "{\"score\": 9, \"feedback\": \"good\"}".to_string()
                }
            }
        })
    });
    let ctx = result.unwrap();
    assert_eq!(visited, vec!["plan", "code", "grade", "code", "grade"]);
    assert_eq!(prompts[0], "Outline for: a cache");
    assert_eq!(prompts[1], "Implement:\nPLAN\n");
    assert_eq!(prompts[3], "Implement:\nPLAN\nadd tests");
    assert_eq!(ctx.get("grade.score"), Some(&JsonValue::Json("9".to_string())));
    assert_eq!(ctx.get("grade.feedback"), Some(&JsonValue::Text("good".to_string())));
    assert_eq!(ctx.get("code.output"), Some(&JsonValue::Text("CODE".to_string())));
}

#[test]
fn answer_is_recorded_with_its_json_fields() {
    let mut wf: Flow = Workflow::new();
    wf.add_node(node("grade", "codex", "go"));
    wf.add_edge("grade", EXIT);
    let answer = "{\"score\":7,\"output\":\"inner\",\"tags\":[\"a\"],\"none\":null}";
    let (result, _) = drive(&wf, Context::new(), |_, _| Ok(answer.to_string()));
    let ctx = result.unwrap();
    assert_eq!(ctx.get("grade.output"), Some(&JsonValue::Text(answer.to_string())));
    assert_eq!(ctx.get("grade.score"), Some(&JsonValue::Json("7".to_string())));
    assert_eq!(ctx.get("grade.tags"), Some(&JsonValue::Json("[\"a\"]".to_string())));
    assert_eq!(ctx.get("grade.none"), Some(&JsonValue::Null));
}

#[test]
fn answer_that_is_not_an_object_is_stored_alone() {
    let mut wf: Flow = Workflow::new();
    wf.add_node(node("n", "p", "x"));
    wf.add_edge("n", "exit");
    let (result, _) = drive(&wf, Context::new(), |_, _| Ok("[1, 2]".to_string()));
    let ctx = result.unwrap();
    assert_eq!(ctx.snapshot().len(), 1);
    assert_eq!(ctx.get("n.output"), Some(&JsonValue::Text("[1, 2]".to_string())));
}

#[test]
fn runaway_loop_stops_after_the_budget() {
    let mut wf: Flow = Workflow::new();
    wf.add_node(node("a", "p", "x"));
    wf.add_edge("a", "a");
    let (result, visited) = drive(&wf, Context::new(), |_, _| Ok("again".to_string()));
    assert_eq!(result.unwrap_err(), OrchestratorError::MaxIterations(DEFAULT_MAX_ITERATIONS));
    assert_eq!(visited.len(), DEFAULT_MAX_ITERATIONS);
}

#[test]
fn node_without_passing_edge_is_a_dead_end() {
    let mut wf: Flow = Workflow::new();
    wf.add_node(node("a", "p", "x"));
    wf.add_node(node("b", "p", "x"));
    wf.add_conditional_edge("a", "b", Box::new(|_: &Context| false));
    let (result, visited) = drive(&wf, Context::new(), |_, _| Ok("o".to_string()));
    assert_eq!(result.unwrap_err(), OrchestratorError::DeadEnd("a".to_string()));
    assert_eq!(visited, vec!["a"]);
    let mut lonely: Flow = Workflow::new();
    lonely.add_node(node("solo", "p", "x"));
    let (result, _) = drive(&lonely, Context::new(), |_, _| Ok("o".to_string()));
    assert_eq!(result.unwrap_err(), OrchestratorError::DeadEnd("solo".to_string()));
}

#[test]
fn first_passing_edge_wins_and_later_conditions_are_not_evaluated() {
    let calls = Rc::new(Cell::new(0));
    let (c1, c2, c3) = (calls.clone(), calls.clone(), calls.clone());
    let mut wf: Flow = Workflow::new();
    wf.add_node(node("a", "p", "x"));
    wf.add_node(node("b", "p", "x"));
    wf.add_node(node("c", "p", "x"));
    wf.add_conditional_edge("a", "b", Box::new(move |_: &Context| { c1.set(c1.get() + 1); false }));
    wf.add_conditional_edge("a", "c", Box::new(move |_: &Context| { c2.set(c2.get() + 1); true }));
    wf.add_conditional_edge("a", "b", Box::new(move |_: &Context| { c3.set(c3.get() + 100); true }));
    wf.add_edge("c", "exit");
    let (result, visited) = drive(&wf, Context::new(), |_, _| Ok("o".to_string()));
    assert!(result.is_ok());
    assert_eq!(visited, vec!["a", "c"]);
    assert_eq!(calls.get(), 2);
}

#[test]
fn direct_edge_is_taken_without_a_test() {
    let mut wf: Flow = Workflow::new();
    wf.add_node(node("a", "p", "x"));
    wf.add_edge("a", "exit");
    let progress = wf.start(Context::new());
    let run = match progress {
        Progress::Pending(run, Action::Complete(_)) => run,
        _ => panic!("expected a completion"),
    };
    match wf.step(run, Event::Output(Ok("o".to_string()))) {
        Progress::Done(Ok(ctx)) => assert!(ctx.get("a.output").is_some()),
        _ => panic!("expected the run to finish"),
    }
}

#[test]
fn missing_entry_node_is_reported() {
    let mut wf: Flow = Workflow::new();
    wf.add_node(node("a", "p", "x"));
    wf.set_entry("ghost".to_string());
    let (result, _) = drive(&wf, Context::new(), |_, _| Ok("o".to_string()));
    assert_eq!(result.unwrap_err(), OrchestratorError::NodeNotFound("ghost".to_string()));
}

#[test]
fn empty_workflow_has_no_entry() {
    let wf: Flow = Workflow::new();
    let (result, _) = drive(&wf, Context::new(), |_, _| Ok("o".to_string()));
    assert_eq!(result.unwrap_err(), OrchestratorError::Config("workflow has no entry node".to_string()));
}

#[test]
fn dangling_edges_are_refused_before_any_node_runs() {
    let mut wf: Flow = Workflow::new();
    wf.add_node(node("a", "p", "x"));
    wf.add_edge("a", "b");
    wf.add_edge("a", "exit");
    wf.add_edge("x", "y");
    let (result, visited) = drive(&wf, Context::new(), |_, _| Ok("o".to_string()));
    assert_eq!(
        result.unwrap_err(),
        OrchestratorError::Config("edges point to unknown nodes: a -> b, x -> y".to_string())
    );
    assert!(visited.is_empty());
    assert!(wf.validate().is_err());
}

#[test]
fn entry_at_exit_returns_the_context_untouched() {
    let mut wf: Flow = Workflow::new();
    wf.set_entry("exit".to_string());
    let mut ctx = Context::new();
    ctx.set("k".to_string(), JsonValue::Text("v".to_string()));
    let (result, visited) = drive(&wf, ctx, |_, _| Ok("o".to_string()));
    let ctx = result.unwrap();
    assert!(visited.is_empty());
    assert_eq!(ctx.get("k"), Some(&JsonValue::Text("v".to_string())));
}

#[test]
fn provider_failure_ends_the_run_with_its_error() {
    let mut wf: Flow = Workflow::new();
    wf.add_node(node("a", "p", "x"));
    wf.add_edge("a", "exit");
    let (result, _) = drive(&wf, Context::new(), |_, _| Err(OrchestratorError::Http("timeout".to_string())));
    assert_eq!(result.unwrap_err(), OrchestratorError::Http("timeout".to_string()));
}

#[test]
fn first_added_node_is_the_entry_unless_set() {
    let mut wf: Flow = Workflow::new();
    wf.add_node(node("first", "p", "x"));
    wf.add_node(node("second", "p", "x"));
    match wf.start(Context::new()) {
        Progress::Pending(run, Action::Complete(req)) => {
            assert_eq!(req.node, "first");
            assert_eq!(run.current(), "first");
            assert_eq!(run.iterations(), 0);
        }
        _ => panic!("expected a completion"),
    }
    wf.set_entry("second".to_string());
    match wf.start(Context::new()) {
        Progress::Pending(_, Action::Complete(req)) => assert_eq!(req.node, "second"),
        _ => panic!("expected a completion"),
    }
}

#[test]
fn request_carries_system_prompt_model_and_rendered_prompt() {
    let mut wf: Flow = Workflow::new();
    wf.add_node(Node::new(
        "plan".to_string(),
        "anthropic",
        "model-s".to_string(),
        "Do {{task}}".to_string(),
        Some("You are an architect.".to_string()),
    ));
    let mut ctx = Context::new();
    ctx.set("task".to_string(), JsonValue::Text("X".to_string()));
    match wf.start(ctx) {
        Progress::Pending(_, Action::Complete(req)) => {
            assert_eq!(req.prompt, "Do X");
            assert_eq!(req.model, "model-s");
            assert_eq!(req.system.as_deref(), Some("You are an architect."));
            assert_eq!(wf.node("plan").unwrap().provider, "anthropic");
        }
        _ => panic!("expected a completion"),
    }
}

#[test]
fn edge_accessors() {
    let d: Edge<Cond> = Edge::direct("t".to_string());
    let c: Edge<Cond> = Edge::conditional("u".to_string(), Box::new(|_: &Context| true));
    assert_eq!(d.target(), "t");
    assert_eq!(c.target(), "u");
    assert!(d.passes(false));
    assert!(!c.passes(false));
    assert!(c.passes(true));
}

#[test]
fn a_run_changes_only_keys_of_the_nodes_it_visits() {
    let mut wf: Flow = Workflow::new();
    wf.add_node(node("a", "p", "x"));
    wf.add_node(node("b", "p", "y"));
    wf.add_node(node("c", "p", "z"));
    wf.add_edge("a", "b");
    wf.add_conditional_edge(
        "b",
        "a",
        Box::new(|c: &Context| c.get_str("a.output") == Some("first".to_string())),
    );
    wf.add_edge("b", EXIT);
    let mut ctx = Context::new();
    ctx.set("x".to_string(), JsonValue::Text("1".to_string()));
    ctx.set("c.output".to_string(), JsonValue::Text("old".to_string()));
    let mut calls = 0;
    let (result, visited) = drive(&wf, ctx, |req, _| {
        calls += 1;
        Ok(if req.node == "a" && calls == 1 {
            "first"
        } else if req.node == "a" {
            "second"
        } else {
            "{\"k\": true}"
        }
        .to_string())
    });
    assert_eq!(visited, vec!["a", "b", "a", "b"]);
    let ctx = result.unwrap();
    assert_eq!(ctx.get("x"), Some(&JsonValue::Text("1".to_string())));
    assert_eq!(ctx.get("c.output"), Some(&JsonValue::Text("old".to_string())));
    assert_eq!(ctx.get("a.output"), Some(&JsonValue::Text("second".to_string())));
    assert_eq!(ctx.get("b.output"), Some(&JsonValue::Text("{\"k\": true}".to_string())));
    assert_eq!(ctx.get("b.k"), Some(&JsonValue::Json("true".to_string())));
    assert_eq!(ctx.snapshot().len(), 5);
}
