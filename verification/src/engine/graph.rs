use vstd::prelude::*;
use crate::engine::edge::Edge;
use crate::engine::node::Node;
use crate::engine::workflow::EXIT;
use crate::table::{Table, keys_distinct};
use crate::text::str_eq;

verus! {

/// The name that ends a run; it is not a node.
pub open spec fn exit_id() -> Seq<char> {
    seq!['e', 'x', 'i', 't']
}

/// Whether `s` is the exit.
pub fn is_exit(s: &str) -> (b: bool)
    ensures
        b == (s@ == exit_id()),
{
    proof {
        reveal_strlit("exit");
        assert(EXIT@ =~= exit_id());
    }
    str_eq(s, EXIT)
}

/// An edge target that names neither a node nor the exit.
pub open spec fn dangling<P>(nodes: Map<Seq<char>, Node<P>>, t: Seq<char>) -> bool {
    !nodes.contains_key(t) && t != exit_id()
}

/// The dangling targets among `edges`, each paired with `from`, in edge
/// order.
pub open spec fn unknown_in<P, C>(
    nodes: Map<Seq<char>, Node<P>>,
    from: Seq<char>,
    edges: Seq<Edge<C>>,
) -> Seq<(Seq<char>, Seq<char>)>
    decreases edges.len(),
{
    if edges.len() == 0 {
        Seq::empty()
    } else {
        let rest = unknown_in(nodes, from, edges.drop_last());
        let t = edges.last().target_view();
        if dangling(nodes, t) {
            rest.push((from, t))
        } else {
            rest
        }
    }
}

/// The (source, target) pairs of all edges whose target is dangling, source
/// by source in table order, then edge by edge.
pub open spec fn unknown_targets_spec<P, C>(
    nodes: Map<Seq<char>, Node<P>>,
    adj: Seq<(String, Vec<Edge<C>>)>,
) -> Seq<(Seq<char>, Seq<char>)>
    decreases adj.len(),
{
    if adj.len() == 0 {
        Seq::empty()
    } else {
        unknown_targets_spec(nodes, adj.drop_last()) + unknown_in(nodes, adj.last().0@, adj.last().1@)
    }
}

pub open spec fn pairs_view(p: Seq<(String, String)>) -> Seq<(Seq<char>, Seq<char>)> {
    p.map_values(|e: (String, String)| (e.0@, e.1@))
}

/// The edges that point to no node (and not to the exit), as
/// (source, target) pairs.
pub fn unknown_targets<P, C>(nodes: &Table<Node<P>>, adj: &Table<Vec<Edge<C>>>) -> (r: Vec<
    (String, String),
>)
    ensures
        pairs_view(r@) == unknown_targets_spec(nodes@, adj.entry_seq()),
{
    let entries = adj.entries();
    let ghost es = entries@;
    let mut r: Vec<(String, String)> = Vec::new();
    let mut i: usize = 0;
    while i < entries.len()
        invariant
            es == entries@,
            es == adj.entry_seq(),
            i <= es.len(),
            pairs_view(r@) == unknown_targets_spec(nodes@, es.take(i as int)),
        decreases es.len() - i,
    {
        let from = &entries[i].0;
        let edges = &entries[i].1;
        let ghost before = pairs_view(r@);
        let mut j: usize = 0;
        assert(edges@.take(0) =~= Seq::<Edge<C>>::empty());
        while j < edges.len()
            invariant
                j <= edges@.len(),
                pairs_view(r@) == before + unknown_in(nodes@, from@, edges@.take(j as int)),
            decreases edges@.len() - j,
        {
            let t = edges[j].target();
            assert(edges@.take(j + 1).drop_last() =~= edges@.take(j as int));
            if !nodes.contains_key(t) && !is_exit(t) {
                let ghost old_r = r@;
                r.push((from.clone(), String::from_str(t)));
                assert(pairs_view(r@) =~= pairs_view(old_r).push((from@, t@)));
            }
            j = j + 1;
        }
        assert(edges@.take(j as int) =~= edges@);
        assert(es.take(i + 1).drop_last() =~= es.take(i as int));
        i = i + 1;
    }
    assert(es.take(i as int) =~= es);
    r
}

/// The keys of `keys` that name no node, in order.
pub open spec fn unknown_sources_spec<P>(nodes: Map<Seq<char>, Node<P>>, keys: Seq<Seq<char>>) -> Seq<
    Seq<char>,
>
    decreases keys.len(),
{
    if keys.len() == 0 {
        Seq::empty()
    } else {
        let rest = unknown_sources_spec(nodes, keys.drop_last());
        if nodes.contains_key(keys.last()) {
            rest
        } else {
            rest.push(keys.last())
        }
    }
}

pub open spec fn strings_view(s: Seq<String>) -> Seq<Seq<char>> {
    s.map_values(|e: String| e@)
}

/// The sources of edges that name no node.
pub fn unknown_sources<P, C>(nodes: &Table<Node<P>>, adj: &Table<Vec<Edge<C>>>) -> (r: Vec<String>)
    ensures
        strings_view(r@) == unknown_sources_spec(nodes@, adj.key_seq()),
{
    let entries = adj.entries();
    let ghost es = entries@;
    let ghost keys = adj.key_seq();
    let mut r: Vec<String> = Vec::new();
    let mut i: usize = 0;
    while i < entries.len()
        invariant
            es == entries@,
            es == adj.entry_seq(),
            keys == adj.key_seq(),
            i <= es.len(),
            strings_view(r@) == unknown_sources_spec(nodes@, keys.take(i as int)),
        decreases es.len() - i,
    {
        assert(keys.take(i + 1).drop_last() =~= keys.take(i as int));
        assert(keys[i as int] == es[i as int].0@);
        if !nodes.contains_key(entries[i].0.as_str()) {
            let ghost old_r = r@;
            r.push(entries[i].0.clone());
            assert(strings_view(r@) =~= strings_view(old_r).push(keys[i as int]));
        }
        i = i + 1;
    }
    assert(keys.take(i as int) =~= keys);
    r
}

/// `b` is the target of one of the edges that leave `a`.
pub open spec fn edge_between<C>(adj: Map<Seq<char>, Vec<Edge<C>>>, a: Seq<char>, b: Seq<char>) -> bool {
    adj.contains_key(a) && exists|i: int| 0 <= i < adj[a]@.len() && adj[a]@[i].target_view() == b
}

/// The path `p` goes along an edge from its `i`-th node to the next.
pub open spec fn steps<C>(adj: Map<Seq<char>, Vec<Edge<C>>>, p: Seq<Seq<char>>, i: int) -> bool {
    edge_between(adj, p[i], p[i + 1])
}

/// `p` is a non-empty sequence of nodes, each joined to the next by an edge.
pub open spec fn is_path<C>(adj: Map<Seq<char>, Vec<Edge<C>>>, p: Seq<Seq<char>>) -> bool {
    p.len() >= 1 && forall|i: int| 0 <= i < p.len() - 1 ==> #[trigger] steps(adj, p, i)
}

/// Following edges (whatever their conditions) leads from `from` to `to`.
pub open spec fn reaches<C>(adj: Map<Seq<char>, Vec<Edge<C>>>, from: Seq<char>, to: Seq<char>) -> bool {
    exists|p: Seq<Seq<char>>| #[trigger] is_path(adj, p) && p[0] == from && p.last() == to
}

/// Every edge target in `es`, source by source.
pub open spec fn all_targets<C>(es: Seq<(String, Vec<Edge<C>>)>) -> Seq<Seq<char>>
    decreases es.len(),
{
    if es.len() == 0 {
        Seq::empty()
    } else {
        all_targets(es.drop_last()) + es.last().1@.map_values(|e: Edge<C>| e.target_view())
    }
}

proof fn lemma_all_targets<C>(es: Seq<(String, Vec<Edge<C>>)>, k: int, i: int)
    requires
        0 <= k < es.len(),
        0 <= i < es[k].1@.len(),
    ensures
        all_targets(es).contains(es[k].1@[i].target_view()),
    decreases es.len(),
{
    let front = all_targets(es.drop_last());
    let back = es.last().1@.map_values(|e: Edge<C>| e.target_view());
    if k == es.len() - 1 {
        assert(all_targets(es)[front.len() + i] == back[i]);
    } else {
        lemma_all_targets(es.drop_last(), k, i);
        let w = choose|w: int| 0 <= w < front.len() && front[w] == es[k].1@[i].target_view();
        assert(all_targets(es)[w] == front[w]);
    }
}

proof fn lemma_path_extend<C>(adj: Map<Seq<char>, Vec<Edge<C>>>, from: Seq<char>, b: Seq<char>, c: Seq<char>)
    requires
        reaches(adj, from, b),
        edge_between(adj, b, c),
    ensures
        reaches(adj, from, c),
{
    let p = choose|p: Seq<Seq<char>>| #[trigger] is_path(adj, p) && p[0] == from && p.last() == b;
    let q = p.push(c);
    assert forall|i: int| 0 <= i < q.len() - 1 implies #[trigger] steps(adj, q, i) by {
        if i < p.len() - 1 {
            assert(steps(adj, p, i));
        }
    }
    assert(is_path(adj, q));
}

proof fn lemma_closed_holds_path<C>(adj: Map<Seq<char>, Vec<Edge<C>>>, s: Set<Seq<char>>, p: Seq<Seq<char>>)
    requires
        is_path(adj, p),
        s.contains(p[0]),
        forall|x: Seq<char>, y: Seq<char>| s.contains(x) && #[trigger] edge_between(adj, x, y) ==> s.contains(y),
    ensures
        s.contains(p.last()),
    decreases p.len(),
{
    if p.len() > 1 {
        let q = p.drop_last();
        assert forall|i: int| 0 <= i < q.len() - 1 implies #[trigger] steps(adj, q, i) by {
            assert(steps(adj, p, i));
        }
        lemma_closed_holds_path(adj, s, q);
        assert(steps(adj, p, p.len() - 2));
    }
}

/// Whether the exit can be reached from `entry` by following edges, whatever
/// their conditions.
pub fn can_reach_exit<C>(entry: &str, adj: &Table<Vec<Edge<C>>>) -> (b: bool)
    ensures
        b == reaches(adj@, entry@, exit_id()),
{
    let ghost es = adj.entry_seq();
    let ghost univ = all_targets(es).to_set().insert(entry@);
    proof {
        vstd::seq_lib::seq_to_set_is_finite(all_targets(es));
    }
    let _ = adj.entries();
    let mut seen: Table<()> = Table::new();
    let mut pending: Vec<String> = Vec::new();
    pending.push(String::from_str(entry));
    proof {
        let p = seq![entry@];
        assert(is_path(adj@, p));
        assert(strings_view(pending@)[0] == entry@);
    }
    loop
        invariant
            es == adj.entry_seq(),
            keys_distinct(es),
            univ == all_targets(es).to_set().insert(entry@),
            univ.finite(),
            seen.key_seq().no_duplicates(),
            forall|k: Seq<char>| #[trigger] seen@.contains_key(k) <==> seen.key_seq().contains(k),
            forall|k: Seq<char>| seen@.contains_key(k) ==> #[trigger] univ.contains(k),
            forall|j: int| 0 <= j < pending@.len() ==> univ.contains(#[trigger] strings_view(pending@)[j]),
            forall|k: Seq<char>| seen@.contains_key(k) ==> #[trigger] reaches(adj@, entry@, k),
            forall|j: int| 0 <= j < pending@.len() ==> reaches(adj@, entry@, #[trigger] strings_view(pending@)[j]),
            forall|x: Seq<char>, y: Seq<char>| seen@.contains_key(x) && #[trigger] edge_between(adj@, x, y)
                ==> seen@.contains_key(y) || strings_view(pending@).contains(y),
            seen@.contains_key(entry@) || strings_view(pending@).contains(entry@),
            !seen@.contains_key(exit_id()),
        decreases univ.len() - seen.key_seq().len(), pending@.len(),
    {
        proof {
            seen.key_seq().unique_seq_to_set();
            vstd::seq_lib::seq_to_set_is_finite(seen.key_seq());
            assert(seen.key_seq().to_set().subset_of(univ));
            vstd::set_lib::lemma_len_subset(seen.key_seq().to_set(), univ);
        }
        let ghost pending_before = strings_view(pending@);
        assert(forall|j: int| 0 <= j < pending_before.len() ==> univ.contains(#[trigger] pending_before[j]) && reaches(adj@, entry@, pending_before[j]));
        match pending.pop() {
            None => {
                proof {
                    assert(strings_view(pending@) =~= Seq::<Seq<char>>::empty());
                    let s = Set::new(|k: Seq<char>| seen@.contains_key(k));
                    if reaches(adj@, entry@, exit_id()) {
                        let p = choose|p: Seq<Seq<char>>| #[trigger] is_path(adj@, p) && p[0] == entry@ && p.last() == exit_id();
                        lemma_closed_holds_path(adj@, s, p);
                    }
                }
                return false;
            },
            Some(current) => {
                let ghost cur = current@;
                assert(pending_before =~= strings_view(pending@).push(cur));
                assert(pending_before[pending_before.len() - 1] == cur);
                if is_exit(current.as_str()) {
                    return true;
                }
                let ghost seen_before = seen@;
                let ghost keys_before = seen.key_seq();
                let prev = seen.insert(current.clone(), ());
                proof {
                    seen.lemma_key_seq();
                }
                if prev.is_some() {
                    assert forall|j: int| 0 <= j < pending@.len() implies univ.contains(#[trigger] strings_view(pending@)[j])
                        && reaches(adj@, entry@, strings_view(pending@)[j]) by {
                        assert(strings_view(pending@)[j] == pending_before[j]);
                    }
                    assert forall|x: Seq<char>, y: Seq<char>| seen@.contains_key(x) && #[trigger] edge_between(adj@, x, y)
                        implies seen@.contains_key(y) || strings_view(pending@).contains(y) by {
                        if pending_before.contains(y) && !seen@.contains_key(y) {
                            let j = choose|j: int| 0 <= j < pending_before.len() && pending_before[j] == y;
                            assert(j < pending_before.len() - 1);
                            assert(strings_view(pending@)[j] == y);
                        }
                    }
                    assert(seen@.contains_key(entry@) || strings_view(pending@).contains(entry@)) by {
                        if pending_before.contains(entry@) && !seen@.contains_key(entry@) {
                            let j = choose|j: int| 0 <= j < pending_before.len() && pending_before[j] == entry@;
                            assert(strings_view(pending@)[j] == entry@);
                        }
                    }
                    continue;
                }
                assert(seen.key_seq() == keys_before.push(cur));
                assert(seen.key_seq().no_duplicates()) by {
                    assert(!keys_before.contains(cur));
                }
                let ghost base = strings_view(pending@);
                match adj.get(current.as_str()) {
                    Some(edges) => {
                        let mut j: usize = 0;
                        while j < edges.len()
                            invariant
                                j <= edges@.len(),
                                adj@.contains_key(cur),
                                adj@[cur] == *edges,
                                strings_view(pending@) == base + edges@.take(j as int).map_values(|e: Edge<C>| e.target_view()),
                            decreases edges@.len() - j,
                        {
                            let ghost pv0 = strings_view(pending@);
                            let t = String::from_str(edges[j].target());
                            assert(t@ == edges@[j as int].target_view());
                            pending.push(t);
                            assert(strings_view(pending@) =~= pv0.push(t@));
                            assert(edges@.take(j + 1).map_values(|e: Edge<C>| e.target_view()) =~= edges@.take(
                                j as int,
                            ).map_values(|e: Edge<C>| e.target_view()).push(edges@[j as int].target_view()));
                            j = j + 1;
                            assert(strings_view(pending@) =~= base + edges@.take(j as int).map_values(|e: Edge<C>| e.target_view()));
                        }
                        assert(edges@.take(j as int) =~= edges@);
                    },
                    None => {
                        assert(strings_view(pending@) =~= base + Seq::<Seq<char>>::empty());
                    },
                }
                let ghost added = if adj@.contains_key(cur) {
                    adj@[cur]@.map_values(|e: Edge<C>| e.target_view())
                } else {
                    Seq::<Seq<char>>::empty()
                };
                assert(strings_view(pending@) == base + added);
                proof {
                    let pv = strings_view(pending@);
                    assert(forall|j: int| 0 <= j < base.len() ==> pv[j] == base[j]);
                    assert forall|y: Seq<char>| #[trigger] edge_between(adj@, cur, y) implies pv.contains(y) by {
                        let i = choose|i: int| 0 <= i < adj@[cur]@.len() && adj@[cur]@[i].target_view() == y;
                        assert(pv[base.len() + i] == y);
                    }
                    assert forall|j: int| 0 <= j < pv.len() implies univ.contains(#[trigger] pv[j]) && reaches(adj@, entry@, pv[j]) by {
                        if j < base.len() {
                            assert(pending_before[j] == pv[j]);
                        } else {
                            let i = j - base.len();
                            assert(adj@.contains_key(cur));
                            let k = choose|k: int| 0 <= k < es.len() && es[k].0@ == cur;
                            let k0 = choose|i: int| 0 <= i < es.len() && es[i].0@ == cur;
                            assert(k0 == k);
                            assert(adj@[cur] == es[k].1);
                            assert(pv[j] == added[i]);
                            lemma_all_targets(es, k, i);
                            assert(edge_between(adj@, cur, pv[j]));
                            lemma_path_extend(adj@, entry@, cur, pv[j]);
                        }
                    }
                    assert forall|x: Seq<char>, y: Seq<char>| seen@.contains_key(x) && #[trigger] edge_between(adj@, x, y)
                        implies seen@.contains_key(y) || pv.contains(y) by {
                        if x != cur && pending_before.contains(y) && !seen@.contains_key(y) {
                            let w = choose|w: int| 0 <= w < pending_before.len() && pending_before[w] == y;
                            if w < pending_before.len() - 1 {
                                assert(pv[w] == y);
                            }
                        }
                    }
                    assert(univ.contains(cur));
                    seen.key_seq().unique_seq_to_set();
                    vstd::seq_lib::seq_to_set_is_finite(seen.key_seq());
                    assert(seen.key_seq().to_set().subset_of(univ));
                    vstd::set_lib::lemma_len_subset(seen.key_seq().to_set(), univ);
                    assert(seen@.contains_key(entry@) || pv.contains(entry@)) by {
                        if !seen@.contains_key(entry@) {
                            let w = choose|w: int| 0 <= w < pending_before.len() && pending_before[w] == entry@;
                            if w < pending_before.len() - 1 {
                                assert(pv[w] == entry@);
                            }
                        }
                    }
                }
            },
        }
    }
}

/// Some edge of `edges` leads to `t`.
pub open spec fn leads_to<C>(edges: Seq<Edge<C>>, t: Seq<char>) -> bool {
    exists|j: int| 0 <= j < edges.len() && #[trigger] edges[j].target_view() == t
}

/// Some edge, of whatever kind, leaves `s` for `t` in the adjacency `adj`.
pub open spec fn has_edge<C>(adj: Seq<(String, Vec<Edge<C>>)>, s: Seq<char>, t: Seq<char>) -> bool {
    exists|i: int| 0 <= i < adj.len() && #[trigger] adj[i].0@ == s && leads_to(adj[i].1@, t)
}

proof fn lemma_unknown_in_holds<P, C>(
    nodes: Map<Seq<char>, Node<P>>,
    from: Seq<char>,
    edges: Seq<Edge<C>>,
    s: Seq<char>,
    t: Seq<char>,
)
    ensures
        unknown_in(nodes, from, edges).contains((s, t)) <==> (s == from && leads_to(edges, t)
            && !nodes.contains_key(t) && t != exit_id()),
    decreases edges.len(),
{
    if edges.len() > 0 {
        let init = edges.drop_last();
        let rest = unknown_in(nodes, from, init);
        lemma_unknown_in_holds(nodes, from, init, s, t);
        let last = edges.last().target_view();
        if leads_to(edges, t) {
            let j = choose|j: int| 0 <= j < edges.len() && #[trigger] edges[j].target_view() == t;
            if j < edges.len() - 1 {
                assert(init[j].target_view() == t);
            }
        }
        if leads_to(init, t) {
            let j = choose|j: int| 0 <= j < init.len() && #[trigger] init[j].target_view() == t;
            assert(edges[j].target_view() == t);
        }
        assert(edges[edges.len() - 1].target_view() == last);
        if !nodes.contains_key(last) && last != exit_id() {
            let u = rest.push((from, last));
            assert(u.contains((s, t)) <==> (rest.contains((s, t)) || (s, t) == (from, last))) by {
                if u.contains((s, t)) {
                    let k = choose|k: int| 0 <= k < u.len() && u[k] == (s, t);
                    if k < rest.len() {
                        assert(rest[k] == u[k]);
                    }
                }
                if rest.contains((s, t)) {
                    let k = choose|k: int| 0 <= k < rest.len() && rest[k] == (s, t);
                    assert(u[k] == rest[k]);
                }
                assert(u[rest.len() as int] == (from, last));
            }
        }
    }
}

/// The edges that validation reports are exactly the edges, direct or
/// conditional, whose target names neither a node nor the exit: a pair
/// `(s, t)` is reported if and only if some edge leaves `s` for such a `t`.
pub proof fn lemma_unknown_targets_are_the_dangling_edges<P, C>(
    nodes: Map<Seq<char>, Node<P>>,
    adj: Seq<(String, Vec<Edge<C>>)>,
    s: Seq<char>,
    t: Seq<char>,
)
    ensures
        unknown_targets_spec(nodes, adj).contains((s, t)) <==> (has_edge(adj, s, t) && !nodes.contains_key(t)
            && t != exit_id()),
    decreases adj.len(),
{
    if adj.len() > 0 {
        let init = adj.drop_last();
        let a = unknown_targets_spec(nodes, init);
        let b = unknown_in(nodes, adj.last().0@, adj.last().1@);
        lemma_unknown_targets_are_the_dangling_edges(nodes, init, s, t);
        lemma_unknown_in_holds(nodes, adj.last().0@, adj.last().1@, s, t);
        let u = a + b;
        assert(u.contains((s, t)) <==> (a.contains((s, t)) || b.contains((s, t)))) by {
            if u.contains((s, t)) {
                let k = choose|k: int| 0 <= k < u.len() && u[k] == (s, t);
                if k < a.len() {
                    assert(a[k] == u[k]);
                } else {
                    assert(b[k - a.len()] == u[k]);
                }
            }
            if a.contains((s, t)) {
                let k = choose|k: int| 0 <= k < a.len() && a[k] == (s, t);
                assert(u[k] == a[k]);
            }
            if b.contains((s, t)) {
                let k = choose|k: int| 0 <= k < b.len() && b[k] == (s, t);
                assert(u[k + a.len()] == b[k]);
            }
        }
        let n = adj.len() - 1;
        assert(adj[n] == adj.last());
        if has_edge(adj, s, t) {
            let i = choose|i: int| 0 <= i < adj.len() && #[trigger] adj[i].0@ == s && leads_to(adj[i].1@, t);
            if i < n {
                assert(init[i].0@ == s);
            }
        }
        if has_edge(init, s, t) {
            let i = choose|i: int| 0 <= i < init.len() && #[trigger] init[i].0@ == s && leads_to(init[i].1@, t);
            assert(adj[i].0@ == s);
        }
        if s == adj.last().0@ && leads_to(adj.last().1@, t) {
            assert(adj[n].0@ == s);
        }
    }
}

} // verus!
