use vstd::prelude::*;
use crate::context::Context;
use crate::engine::template::{render, render_spec};
use crate::error::OrchestratorResult;

verus! {

pub type NodeId = String;

/// A step of a workflow. Its provider `P` and model are free: no role
/// (planning, coding, grading) is tied to either.
pub struct Node<P> {
    pub id: NodeId,
    pub provider: P,
    pub model: String,
    pub system_prompt: Option<String>,
    pub prompt_template: String,
}

impl<P: Clone> Clone for Node<P> {
    fn clone(&self) -> (r: Self)
        ensures
            r.id == self.id,
            r.model == self.model,
            r.system_prompt == self.system_prompt,
            r.prompt_template == self.prompt_template,
            cloned::<P>(self.provider, r.provider),
    {
        Node {
            id: self.id.clone(),
            provider: self.provider.clone(),
            model: self.model.clone(),
            system_prompt: match &self.system_prompt {
                Some(s) => Some(s.clone()),
                None => None,
            },
            prompt_template: self.prompt_template.clone(),
        }
    }
}

impl<P> Node<P> {
    pub fn new(
        id: String,
        provider: P,
        model: String,
        prompt_template: String,
        system_prompt: Option<String>,
    ) -> (n: Self)
        ensures
            n == (Node { id, provider, model, system_prompt, prompt_template }),
    {
        Node { id, provider, model, system_prompt, prompt_template }
    }

    /// The prompt this node sends: its template rendered against `ctx`.
    pub fn prompt(&self, ctx: &Context) -> (r: OrchestratorResult<String>)
        ensures
            r matches Ok(s) && s@ == render_spec(self.prompt_template@, ctx@),
    {
        render(self.prompt_template.as_str(), ctx)
    }
}

} // verus!
