use vstd::prelude::*;

verus! {

/// A transition between nodes. A direct edge is always taken; a conditional
/// edge only when its condition holds on the context (this is what makes a
/// feedback loop: score below threshold, back to the coder). The library
/// only carries a condition `C`; whoever runs the workflow evaluates it.
pub enum Edge<C> {
    Direct { target: String },
    Conditional { target: String, condition: C },
}

impl<C: Clone> Clone for Edge<C> {
    fn clone(&self) -> (r: Self)
        ensures
            r.target_view() == self.target_view(),
            r.is_conditional() == self.is_conditional(),
            match (self, r) {
                (Edge::Conditional { condition: a, .. }, Edge::Conditional { condition: b, .. }) => cloned::<C>(
                    *a,
                    b,
                ),
                _ => true,
            },
    {
        match self {
            Edge::Direct { target } => Edge::Direct { target: target.clone() },
            Edge::Conditional { target, condition } => Edge::Conditional {
                target: target.clone(),
                condition: condition.clone(),
            },
        }
    }
}

impl<C> Edge<C> {
    /// The node this edge leads to.
    pub open spec fn target_view(&self) -> Seq<char> {
        match self {
            Edge::Direct { target } => target@,
            Edge::Conditional { target, .. } => target@,
        }
    }

    pub open spec fn is_conditional(&self) -> bool {
        self is Conditional
    }

    pub fn direct(target: String) -> (e: Self)
        ensures
            e == (Edge::<C>::Direct { target }),
    {
        Edge::Direct { target }
    }

    pub fn conditional(target: String, condition: C) -> (e: Self)
        ensures
            e == (Edge::Conditional { target, condition }),
    {
        Edge::Conditional { target, condition }
    }

    pub fn target(&self) -> (t: &str)
        ensures
            t@ == self.target_view(),
    {
        match self {
            Edge::Direct { target } => target.as_str(),
            Edge::Conditional { target, .. } => target.as_str(),
        }
    }

    /// Whether the edge is taken, given what its condition gave (a direct
    /// edge has none and is always taken).
    pub fn passes(&self, verdict: bool) -> (b: bool)
        ensures
            b == (!self.is_conditional() || verdict),
    {
        match self {
            Edge::Direct { .. } => true,
            Edge::Conditional { .. } => verdict,
        }
    }
}

} // verus!
