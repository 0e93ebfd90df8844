# agent_rotary

A multi-provider workflow orchestrator. A workflow is a graph of nodes; each
node renders a `{{key}}` prompt template against a shared context, asks a
language-model provider for a completion, and stores the answer in the
context; edges, direct or conditional, choose the next node, which allows
feedback loops (grade below a threshold, back to the coding node) under a
bound on the number of nodes a run may enter.

## Layout

- `src/` — the verified library (Verus):
  - `table.rs`: string-keyed map kept in insertion order, no key twice.
  - `context.rs`: `JsonValue` and `Context`, the data shared by the nodes.
  - `engine/template.rs`: the `{{key}}` / `{{key|default}}` renderer.
  - `engine/edge.rs`, `engine/node.rs`: edges and nodes, generic over the
    condition and the provider they carry.
  - `engine/graph.rs`: dangling edges and reachability of `exit`.
  - `engine/workflow.rs`: the workflow and the state machine of a run
    (`start`, `step`), with the laws that hold of each step.
  - `engine/runs.rs`: a run driven by a sequence of answers, and the laws
    that hold of every such run (which node comes next and with which
    prompt, the completion budget, dangling edges, which context keys a run
    may change, where the last answers stay).
  - `providers.rs`: the provider registry and the provider protocols:
    request bodies, endpoints, and what a reply (status and body) gives back.
  - `json.rs`: JSON documents as the library holds them, the two calls into
    serde_json (reading and writing a document), and lookups.
  - `error.rs`: the error type, its messages and its Python exception class.
- `app/` — the unverified side: HTTP providers (reqwest), the async loop
  that drives a run, and the Python bindings (pyo3).
- `tests/` — tests of the library.
