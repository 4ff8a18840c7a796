use vstd::prelude::*;
use crate::edge::Edge;
use crate::graph::{
    Graph, document, edge_labels, edge_pairs, emitted, grouped, insert_by_key, known_record,
    node_order, node_record, sort_by_key, table_append, lemma_insert_preserves, lemma_sort_preserves,
};
use crate::literal::LitV;
use crate::node_builder::{NodeInstance, NodeTypeCatalog, NodeTypeDef, ParamDef};
use crate::laws::{keys_sorted, lemma_insert_sorted, lemma_sort_sorted};

verus! {

/// No two elements share a key.
pub open spec fn keys_distinct<T>(s: Seq<(u64, T)>) -> bool {
    forall|i: int, j: int| 0 <= i < s.len() && 0 <= j < s.len() && i != j ==> s[i].0 != s[j].0
}

/// Each holds every element of the other.
pub open spec fn same_elements<T>(a: Seq<T>, b: Seq<T>) -> bool {
    (forall|i: int| 0 <= i < a.len() ==> b.contains(#[trigger] a[i])) && (forall|i: int|
        0 <= i < b.len() ==> a.contains(#[trigger] b[i]))
}

/// Two key-sorted sequences with distinct keys and the same elements are
/// equal.
pub proof fn lemma_sorted_unique<T>(a: Seq<(u64, T)>, b: Seq<(u64, T)>)
    requires
        keys_sorted(a),
        keys_sorted(b),
        keys_distinct(a),
        keys_distinct(b),
        same_elements(a, b),
    ensures
        a == b,
    decreases a.len() + b.len(),
{
    if a.len() == 0 {
        if b.len() > 0 {
            assert(a.contains(b[0]));
        }
        assert(a =~= b);
    } else if b.len() == 0 {
        assert(b.contains(a[0]));
    } else {
        let x = a.last();
        let y = b.last();
        assert(b.contains(a[a.len() - 1]));
        let k = choose|k: int| 0 <= k < b.len() && b[k] == x;
        assert(a.contains(b[b.len() - 1]));
        let m = choose|m: int| 0 <= m < a.len() && a[m] == y;
        assert(x.0 <= y.0) by {
            if k < b.len() - 1 {
                assert(b[k].0 <= b[b.len() - 1].0);
            }
        }
        assert(y.0 <= x.0) by {
            if m < a.len() - 1 {
                assert(a[m].0 <= a[a.len() - 1].0);
            }
        }
        assert(k == b.len() - 1);
        let a2 = a.drop_last();
        let b2 = b.drop_last();
        assert forall|i: int| 0 <= i < a2.len() implies b2.contains(#[trigger] a2[i]) by {
            assert(a2[i] == a[i]);
            assert(b.contains(a[i]));
            let j = choose|j: int| 0 <= j < b.len() && b[j] == a[i];
            if j == b.len() - 1 {
                assert(a[i].0 == a[a.len() - 1].0);
            }
            assert(b2[j] == a[i]);
        }
        assert forall|i: int| 0 <= i < b2.len() implies a2.contains(#[trigger] b2[i]) by {
            assert(b2[i] == b[i]);
            assert(a.contains(b[i]));
            let j = choose|j: int| 0 <= j < a.len() && a[j] == b[i];
            if j == a.len() - 1 {
                assert(b[i].0 == b[b.len() - 1].0);
            }
            assert(a2[j] == b[i]);
        }
        lemma_sorted_unique(a2, b2);
        assert(a =~= b2.push(y));
        assert(b =~= b2.push(y));
    }
}

proof fn lemma_insert_holds<T>(s: Seq<(u64, T)>, x: (u64, T))
    ensures
        insert_by_key(s, x).contains(x),
        forall|i: int| 0 <= i < s.len() ==> insert_by_key(s, x).contains(#[trigger] s[i]),
    decreases s.len(),
{
    let r = insert_by_key(s, x);
    if s.len() == 0 {
        assert(r[0] == x);
    } else if s.last().0 <= x.0 {
        assert(r[s.len() as int] == x);
        assert forall|i: int| 0 <= i < s.len() implies r.contains(#[trigger] s[i]) by {
            assert(r[i] == s[i]);
        }
    } else {
        let t = s.drop_last();
        lemma_insert_holds(t, x);
        let r0 = insert_by_key(t, x);
        assert(r == r0.push(s.last()));
        let k = choose|k: int| 0 <= k < r0.len() && r0[k] == x;
        assert(r[k] == x);
        assert forall|i: int| 0 <= i < s.len() implies r.contains(#[trigger] s[i]) by {
            if i == s.len() - 1 {
                assert(r[r0.len() as int] == s[i]);
            } else {
                assert(t[i] == s[i]);
                assert(r0.contains(t[i]));
                let j = choose|j: int| 0 <= j < r0.len() && r0[j] == t[i];
                assert(r[j] == s[i]);
            }
        }
    }
}

/// Sorting keeps exactly the elements.
pub proof fn lemma_sort_same_elements<T>(s: Seq<(u64, T)>)
    ensures
        same_elements(sort_by_key(s), s),
    decreases s.len(),
{
    let p = |e: (u64, T)| s.contains(e);
    assert forall|i: int| 0 <= i < s.len() implies p(#[trigger] s[i]) by {
        assert(s.contains(s[i]));
    }
    lemma_sort_preserves(s, p);
    assert forall|i: int| 0 <= i < sort_by_key(s).len() implies s.contains(#[trigger] sort_by_key(s)[i]) by {
        assert(p(sort_by_key(s)[i]));
    }
    if s.len() > 0 {
        let t = s.drop_last();
        lemma_sort_same_elements(t);
        lemma_insert_holds(sort_by_key(t), s.last());
        assert forall|i: int| 0 <= i < s.len() implies sort_by_key(s).contains(#[trigger] s[i]) by {
            if i < s.len() - 1 {
                assert(t[i] == s[i]);
                assert(sort_by_key(t).contains(t[i]));
                let j = choose|j: int| 0 <= j < sort_by_key(t).len() && sort_by_key(t)[j] == t[i];
                assert(insert_by_key(sort_by_key(t), s.last()).contains(sort_by_key(t)[j]));
            }
        }
    }
}

/// Sorting sequences with distinct keys keeps the keys distinct.
pub proof fn lemma_sort_distinct<T>(s: Seq<(u64, T)>)
    requires
        keys_distinct(s),
    ensures
        keys_distinct(sort_by_key(s)),
    decreases s.len(),
{
    if s.len() > 0 {
        let t = s.drop_last();
        let x = s.last();
        assert(keys_distinct(t));
        lemma_sort_distinct(t);
        lemma_sort_sorted(t);
        let u = sort_by_key(t);
        let p = |e: (u64, T)| e.0 != x.0;
        lemma_sort_same_elements(t);
        assert forall|i: int| 0 <= i < t.len() implies p(#[trigger] t[i]) by {
            assert(t[i] == s[i]);
        }
        assert forall|i: int| 0 <= i < u.len() implies p(#[trigger] u[i]) by {
            assert(t.contains(u[i]));
            let j = choose|j: int| 0 <= j < t.len() && t[j] == u[i];
            assert(p(t[j]));
        }
        lemma_insert_distinct(u, x);
    }
}

proof fn lemma_insert_distinct<T>(u: Seq<(u64, T)>, x: (u64, T))
    requires
        keys_distinct(u),
        forall|i: int| 0 <= i < u.len() ==> (#[trigger] u[i]).0 != x.0,
    ensures
        keys_distinct(insert_by_key(u, x)),
    decreases u.len(),
{
    if u.len() > 0 && u.last().0 > x.0 {
        let t = u.drop_last();
        assert(keys_distinct(t));
        assert forall|i: int| 0 <= i < t.len() implies (#[trigger] t[i]).0 != x.0 by {
            assert(t[i] == u[i]);
        }
        lemma_insert_distinct(t, x);
        let r = insert_by_key(t, x);
        let last = u.last();
        let p = |e: (u64, T)| e.0 != last.0;
        assert forall|i: int| 0 <= i < t.len() implies p(#[trigger] t[i]) by {
            assert(t[i] == u[i]);
            assert(u[i].0 != u[u.len() - 1].0);
        }
        lemma_insert_preserves(t, x, p);
        assert forall|i: int, j: int|
            0 <= i < r.push(last).len() && 0 <= j < r.push(last).len() && i != j implies r.push(last)[i].0
            != r.push(last)[j].0 by {
            if i == r.len() {
                assert(p(r[j]));
            } else if j == r.len() {
                assert(p(r[i]));
            }
        }
    } else if u.len() > 0 {
        assert forall|i: int, j: int|
            0 <= i < u.push(x).len() && 0 <= j < u.push(x).len() && i != j implies u.push(x)[i].0 != u.push(x)[j].0 by {
            if i < u.len() && j < u.len() {
                assert(u.push(x)[i] == u[i]);
                assert(u.push(x)[j] == u[j]);
            }
        }
    }
}

/// Sorting by key gives the same result for any arrangement of the same
/// elements, when keys are distinct.
pub proof fn lemma_sort_order_free<T>(a: Seq<(u64, T)>, b: Seq<(u64, T)>)
    requires
        keys_distinct(a),
        keys_distinct(b),
        same_elements(a, b),
    ensures
        sort_by_key(a) == sort_by_key(b),
{
    lemma_sort_sorted(a);
    lemma_sort_sorted(b);
    lemma_sort_distinct(a);
    lemma_sort_distinct(b);
    lemma_sort_same_elements(a);
    lemma_sort_same_elements(b);
    let sa = sort_by_key(a);
    let sb = sort_by_key(b);
    assert forall|i: int| 0 <= i < sa.len() implies sb.contains(#[trigger] sa[i]) by {
        assert(a.contains(sa[i]));
        let j = choose|j: int| 0 <= j < a.len() && a[j] == sa[i];
        assert(b.contains(a[j]));
        let k = choose|k: int| 0 <= k < b.len() && b[k] == a[j];
        assert(sb.contains(b[k]));
    }
    assert forall|i: int| 0 <= i < sb.len() implies sa.contains(#[trigger] sb[i]) by {
        assert(b.contains(sb[i]));
        let j = choose|j: int| 0 <= j < b.len() && b[j] == sb[i];
        assert(a.contains(b[j]));
        let k = choose|k: int| 0 <= k < a.len() && a[k] == b[j];
        assert(sa.contains(a[k]));
    }
    lemma_sorted_unique(sa, sb);
}

pub open spec fn ends_at(e: Edge, node_id: usize, incoming: bool) -> bool {
    (if incoming {
        e.to
    } else {
        e.from
    }) == node_id as u64
}

/// No two edges share an id.
pub open spec fn edge_ids_distinct(edges: Seq<Edge>) -> bool {
    forall|i: int, j: int| 0 <= i < edges.len() && 0 <= j < edges.len() && i != j ==> edges[i].id != edges[j].id
}

/// No two nodes share an id.
pub open spec fn node_ids_distinct(nodes: Seq<NodeInstance>) -> bool {
    forall|i: int, j: int| 0 <= i < nodes.len() && 0 <= j < nodes.len() && i != j ==> nodes[i].id != nodes[j].id
}

/// The pair comes from an edge that ends (or starts) at the node.
pub open spec fn from_edge(p: (u64, String), edges: Seq<Edge>, node_id: usize, incoming: bool) -> bool {
    exists|j: int| 0 <= j < edges.len() && ends_at(edges[j], node_id, incoming) && p == (#[trigger] edges[j].id, edges[j].label)
}

proof fn lemma_edge_pairs_members(edges: Seq<Edge>, node_id: usize, incoming: bool)
    ensures
        forall|k: int| 0 <= k < edge_pairs(edges, node_id, incoming).len() ==> from_edge(
            #[trigger] edge_pairs(edges, node_id, incoming)[k],
            edges,
            node_id,
            incoming,
        ),
        forall|j: int| 0 <= j < edges.len() && ends_at(#[trigger] edges[j], node_id, incoming) ==> edge_pairs(edges, node_id, incoming).contains(
            (edges[j].id, edges[j].label),
        ),
    decreases edges.len(),
{
    if edges.len() > 0 {
        let t = edges.drop_last();
        lemma_edge_pairs_members(t, node_id, incoming);
        let p = edge_pairs(t, node_id, incoming);
        let r = edge_pairs(edges, node_id, incoming);
        let e = edges.last();
        assert forall|k: int| 0 <= k < r.len() implies from_edge(#[trigger] r[k], edges, node_id, incoming) by {
            if k < p.len() {
                assert(r[k] == p[k]);
                assert(from_edge(p[k], t, node_id, incoming));
                let j = choose|j: int| 0 <= j < t.len() && ends_at(t[j], node_id, incoming) && p[k] == (#[trigger] t[j].id, t[j].label);
                assert(edges[j] == t[j]);
                assert(edges[j].id == t[j].id);
            } else {
                assert(r[k] == (e.id, e.label));
                assert(edges[edges.len() - 1] == e);
                assert(edges[edges.len() - 1].id == e.id);
            }
        }
        assert forall|j: int| 0 <= j < edges.len() && ends_at(#[trigger] edges[j], node_id, incoming) implies r.contains(
            (edges[j].id, edges[j].label),
        ) by {
            if j < t.len() {
                assert(edges[j] == t[j]);
                assert(p.contains((t[j].id, t[j].label)));
                let k = choose|k: int| 0 <= k < p.len() && p[k] == (t[j].id, t[j].label);
                assert(r[k] == p[k]);
            } else {
                assert(r[p.len() as int] == (e.id, e.label));
            }
        }
    }
}

proof fn lemma_edge_pairs_distinct(edges: Seq<Edge>, node_id: usize, incoming: bool)
    requires
        edge_ids_distinct(edges),
    ensures
        keys_distinct(edge_pairs(edges, node_id, incoming)),
    decreases edges.len(),
{
    if edges.len() > 0 {
        let t = edges.drop_last();
        assert(edge_ids_distinct(t));
        lemma_edge_pairs_distinct(t, node_id, incoming);
        lemma_edge_pairs_members(t, node_id, incoming);
        let p = edge_pairs(t, node_id, incoming);
        let e = edges.last();
        if ends_at(e, node_id, incoming) {
            let r = p.push((e.id, e.label));
            assert forall|i: int, j: int| 0 <= i < r.len() && 0 <= j < r.len() && i != j implies r[i].0 != r[j].0 by {
                if i == p.len() || j == p.len() {
                    let k = if i == p.len() { j } else { i };
                    assert(r[k] == p[k]);
                    assert(from_edge(p[k], t, node_id, incoming));
                    let m = choose|m: int| 0 <= m < t.len() && ends_at(t[m], node_id, incoming) && p[k] == (#[trigger] t[m].id, t[m].label);
                    assert(edges[m] == t[m]);
                    assert(edges[m].id != edges[edges.len() - 1].id);
                } else {
                    assert(r[i] == p[i]);
                    assert(r[j] == p[j]);
                }
            }
        }
    }
}

/// The labels a node derives from edges do not depend on the order the
/// edges were added in, when edge ids are distinct.
pub proof fn lemma_edge_labels_order_free(e1: Seq<Edge>, e2: Seq<Edge>, node_id: usize, incoming: bool)
    requires
        same_elements(e1, e2),
        edge_ids_distinct(e1),
        edge_ids_distinct(e2),
    ensures
        edge_labels(e1, node_id, incoming) == edge_labels(e2, node_id, incoming),
{
    let pairs_a = edge_pairs(e1, node_id, incoming);
    let pairs_b = edge_pairs(e2, node_id, incoming);
    lemma_edge_pairs_members(e1, node_id, incoming);
    lemma_edge_pairs_members(e2, node_id, incoming);
    lemma_edge_pairs_distinct(e1, node_id, incoming);
    lemma_edge_pairs_distinct(e2, node_id, incoming);
    assert forall|k: int| 0 <= k < pairs_a.len() implies pairs_b.contains(#[trigger] pairs_a[k]) by {
        assert(from_edge(pairs_a[k], e1, node_id, incoming));
        let j = choose|j: int| 0 <= j < e1.len() && ends_at(e1[j], node_id, incoming) && pairs_a[k] == (#[trigger] e1[j].id, e1[j].label);
        assert(e2.contains(e1[j]));
        let m = choose|m: int| 0 <= m < e2.len() && e2[m] == e1[j];
        assert(ends_at(e2[m], node_id, incoming));
    }
    assert forall|k: int| 0 <= k < pairs_b.len() implies pairs_a.contains(#[trigger] pairs_b[k]) by {
        assert(from_edge(pairs_b[k], e2, node_id, incoming));
        let j = choose|j: int| 0 <= j < e2.len() && ends_at(e2[j], node_id, incoming) && pairs_b[k] == (#[trigger] e2[j].id, e2[j].label);
        assert(e1.contains(e2[j]));
        let m = choose|m: int| 0 <= m < e1.len() && e1[m] == e2[j];
        assert(ends_at(e1[m], node_id, incoming));
    }
    lemma_sort_order_free(pairs_a, pairs_b);
}

proof fn lemma_known_record_edges(e1: Seq<Edge>, e2: Seq<Edge>, node: NodeInstance, params: Seq<(String, ParamDef)>)
    requires
        edge_labels(e1, node.id, true) == edge_labels(e2, node.id, true),
        edge_labels(e1, node.id, false) == edge_labels(e2, node.id, false),
    ensures
        known_record(e1, node, params) == known_record(e2, node, params),
    decreases params.len(),
{
    if params.len() > 0 {
        lemma_known_record_edges(e1, e2, node, params.drop_last());
    }
}

/// The nodes in the given order, with their keys.
pub open spec fn visit(nodes: Seq<NodeInstance>, order: Seq<(u64, usize)>) -> Seq<(u64, NodeInstance)> {
    order.map_values(|p: (u64, usize)| (p.0, nodes[p.1 as int]))
}

pub open spec fn grouped_visit(edges: Seq<Edge>, types: Seq<(String, NodeTypeDef)>, v: Seq<(u64, NodeInstance)>) -> Seq<
    (Seq<char>, LitV),
>
    decreases v.len(),
{
    if v.len() == 0 {
        Seq::empty()
    } else {
        let node = v.last().1;
        table_append(grouped_visit(edges, types, v.drop_last()), node.type_@, LitV::Table(node_record(edges, types, node)))
    }
}

proof fn lemma_grouped_visit(edges: Seq<Edge>, types: Seq<(String, NodeTypeDef)>, nodes: Seq<NodeInstance>, order: Seq<(u64, usize)>)
    ensures
        grouped(edges, types, nodes, order) == grouped_visit(edges, types, visit(nodes, order)),
    decreases order.len(),
{
    if order.len() > 0 {
        lemma_grouped_visit(edges, types, nodes, order.drop_last());
        assert(visit(nodes, order).drop_last() =~= visit(nodes, order.drop_last()));
    }
}

proof fn lemma_grouped_visit_edges(e1: Seq<Edge>, e2: Seq<Edge>, types: Seq<(String, NodeTypeDef)>, v: Seq<(u64, NodeInstance)>)
    requires
        forall|id: usize, b: bool| edge_labels(e1, id, b) == edge_labels(e2, id, b),
    ensures
        grouped_visit(e1, types, v) == grouped_visit(e2, types, v),
    decreases v.len(),
{
    if v.len() > 0 {
        lemma_grouped_visit_edges(e1, e2, types, v.drop_last());
        let node = v.last().1;
        assert(edge_labels(e1, node.id, true) == edge_labels(e2, node.id, true));
        assert(edge_labels(e1, node.id, false) == edge_labels(e2, node.id, false));
        lemma_known_record_edges(e1, e2, node, match crate::node_builder::type_lookup(types, node.type_@) {
            Some(td) => td.params@,
            None => Seq::empty(),
        });
    }
}

proof fn lemma_insert_map<T, U>(s: Seq<(u64, T)>, x: (u64, T), f: spec_fn((u64, T)) -> (u64, U))
    requires
        forall|y: (u64, T)| #[trigger] f(y).0 == y.0,
    ensures
        insert_by_key(s.map_values(f), f(x)) == insert_by_key(s, x).map_values(f),
    decreases s.len(),
{
    let fx = f(x);
    assert(fx.0 == x.0);
    if s.len() == 0 {
        assert(insert_by_key(s, x).map_values(f) =~= seq![fx]);
    } else {
        let l = s.last();
        assert(f(l).0 == l.0);
        assert(s.map_values(f).last() == f(l));
        assert(s.map_values(f).drop_last() =~= s.drop_last().map_values(f));
        if l.0 <= x.0 {
            assert(insert_by_key(s, x).map_values(f) =~= s.map_values(f).push(fx));
        } else {
            lemma_insert_map(s.drop_last(), x, f);
            assert(insert_by_key(s, x).map_values(f) =~= insert_by_key(s.drop_last(), x).map_values(f).push(f(l)));
        }
    }
}

proof fn lemma_sort_map<T, U>(s: Seq<(u64, T)>, f: spec_fn((u64, T)) -> (u64, U))
    requires
        forall|y: (u64, T)| #[trigger] f(y).0 == y.0,
    ensures
        sort_by_key(s.map_values(f)) == sort_by_key(s).map_values(f),
    decreases s.len(),
{
    if s.len() == 0 {
        assert(sort_by_key(s).map_values(f) =~= s.map_values(f));
    } else {
        lemma_sort_map(s.drop_last(), f);
        assert(s.map_values(f).drop_last() =~= s.drop_last().map_values(f));
        lemma_insert_map(sort_by_key(s.drop_last()), s.last(), f);
    }
}

/// The nodes keyed by their ids.
pub open spec fn node_pairs(nodes: Seq<NodeInstance>) -> Seq<(u64, NodeInstance)> {
    Seq::new(nodes.len(), |i: int| (nodes[i].id as u64, nodes[i]))
}

proof fn lemma_visit_sorted(nodes: Seq<NodeInstance>)
    requires
        nodes.len() <= usize::MAX,
    ensures
        visit(nodes, node_order(nodes)) == sort_by_key(node_pairs(nodes)),
{
    let s = Seq::new(nodes.len(), |i: int| (nodes[i].id as u64, i as usize));
    let f = |p: (u64, usize)| (p.0, nodes[p.1 as int]);
    lemma_sort_map(s, f);
    assert(s.map_values(f) =~= node_pairs(nodes)) by {
        assert forall|i: int| 0 <= i < s.len() implies #[trigger] s.map_values(f)[i] == node_pairs(nodes)[i] by {
            assert((i as usize) as int == i);
        }
    }
    assert(visit(nodes, node_order(nodes)) =~= sort_by_key(s).map_values(f));
}

proof fn lemma_node_pairs_same(n1: Seq<NodeInstance>, n2: Seq<NodeInstance>)
    requires
        same_elements(n1, n2),
        node_ids_distinct(n1),
        node_ids_distinct(n2),
    ensures
        same_elements(node_pairs(n1), node_pairs(n2)),
        keys_distinct(node_pairs(n1)),
        keys_distinct(node_pairs(n2)),
{
    let pairs_a = node_pairs(n1);
    let pairs_b = node_pairs(n2);
    assert forall|i: int| 0 <= i < pairs_a.len() implies pairs_b.contains(#[trigger] pairs_a[i]) by {
        assert(n2.contains(n1[i]));
        let j = choose|j: int| 0 <= j < n2.len() && n2[j] == n1[i];
        assert(pairs_b[j] == pairs_a[i]);
    }
    assert forall|i: int| 0 <= i < pairs_b.len() implies pairs_a.contains(#[trigger] pairs_b[i]) by {
        assert(n1.contains(n2[i]));
        let j = choose|j: int| 0 <= j < n1.len() && n1[j] == n2[i];
        assert(pairs_a[j] == pairs_b[i]);
    }
}

/// The document and its text do not depend on the order in which nodes
/// and edges were added: graphs holding the same nodes and the same edges,
/// with distinct node ids and distinct edge ids, give the same output.
pub proof fn lemma_output_order_free(g1: &Graph, g2: &Graph, c: &NodeTypeCatalog)
    requires
        g1.nodes@.len() <= usize::MAX,
        g2.nodes@.len() <= usize::MAX,
        same_elements(g1.nodes@, g2.nodes@),
        node_ids_distinct(g1.nodes@),
        node_ids_distinct(g2.nodes@),
        same_elements(g1.edges@, g2.edges@),
        edge_ids_distinct(g1.edges@),
        edge_ids_distinct(g2.edges@),
    ensures
        document(g1, c) == document(g2, c),
        emitted(g1, c) == emitted(g2, c),
{
    let types = c.nodes.types@;
    assert forall|id: usize, b: bool| edge_labels(g1.edges@, id, b) == edge_labels(g2.edges@, id, b) by {
        lemma_edge_labels_order_free(g1.edges@, g2.edges@, id, b);
    }
    lemma_node_pairs_same(g1.nodes@, g2.nodes@);
    assert forall|i: int, j: int|
        0 <= i < node_pairs(g1.nodes@).len() && 0 <= j < node_pairs(g1.nodes@).len() && i != j implies node_pairs(g1.nodes@)[i].0
        != node_pairs(g1.nodes@)[j].0 by {
        assert(g1.nodes@[i].id != g1.nodes@[j].id);
    }
    assert forall|i: int, j: int|
        0 <= i < node_pairs(g2.nodes@).len() && 0 <= j < node_pairs(g2.nodes@).len() && i != j implies node_pairs(g2.nodes@)[i].0
        != node_pairs(g2.nodes@)[j].0 by {
        assert(g2.nodes@[i].id != g2.nodes@[j].id);
    }
    lemma_sort_order_free(node_pairs(g1.nodes@), node_pairs(g2.nodes@));
    lemma_visit_sorted(g1.nodes@);
    lemma_visit_sorted(g2.nodes@);
    lemma_grouped_visit(g1.edges@, types, g1.nodes@, node_order(g1.nodes@));
    lemma_grouped_visit(g2.edges@, types, g2.nodes@, node_order(g2.nodes@));
    lemma_grouped_visit_edges(g1.edges@, g2.edges@, types, visit(g1.nodes@, node_order(g1.nodes@)));
}

} // verus!
