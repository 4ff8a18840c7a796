use vstd::prelude::*;
use crate::edge::Edge;
use crate::graph::{
    Graph, copied_record, document, known_record, edge_labels, edge_pairs, emitted, grouped, insert_by_key, table_append,
    lemma_insert_preserves, lemma_sort_preserves, node_order, node_record, render_spec,
    resolve_spec, sort_by_key,
};
use crate::literal::{LitV, keys_unique, key_index, table_get, table_insert, lemma_key_index, lemma_table_get_index};
use crate::node_builder::{names_unique, NodeInstance, NodeTypeCatalog, NodeTypeDef, ParamDef, ParamType, RenderHint, type_lookup};

verus! {

/// Keys never decrease along the sequence.
pub open spec fn keys_sorted<T>(s: Seq<(u64, T)>) -> bool {
    forall|i: int, j: int| 0 <= i < j < s.len() ==> s[i].0 <= s[j].0
}

pub proof fn lemma_insert_sorted<T>(s: Seq<(u64, T)>, x: (u64, T))
    requires
        keys_sorted(s),
    ensures
        keys_sorted(insert_by_key(s, x)),
    decreases s.len(),
{
    if s.len() > 0 && s.last().0 > x.0 {
        let t = s.drop_last();
        assert(keys_sorted(t));
        lemma_insert_sorted(t, x);
        let bound = s.last().0;
        let p = |e: (u64, T)| e.0 <= bound;
        assert forall|i: int| 0 <= i < t.len() implies p(#[trigger] t[i]) by {
            assert(t[i] == s[i]);
        }
        lemma_insert_preserves(t, x, p);
        let r = insert_by_key(t, x);
        assert forall|i: int, j: int| 0 <= i < j < r.push(s.last()).len() implies r.push(s.last())[i].0
            <= r.push(s.last())[j].0 by {
            if j == r.len() {
                assert(p(r[i]));
            }
        }
    }
}

pub proof fn lemma_sort_sorted<T>(s: Seq<(u64, T)>)
    ensures
        keys_sorted(sort_by_key(s)),
    decreases s.len(),
{
    if s.len() > 0 {
        lemma_sort_sorted(s.drop_last());
        lemma_insert_sorted(sort_by_key(s.drop_last()), s.last());
    }
}

/// An entered value is the resolved value, whatever the parameter's
/// derivation rule says.
pub proof fn lemma_explicit_value_wins(edges: Seq<Edge>, node: NodeInstance, key: Seq<char>, def: ParamDef, v: LitV)
    requires
        table_get(node.values_view(), key) == Some(v),
    ensures
        resolve_spec(edges, node, key, def) == Some(v),
{
}

/// A list parameter of fixed length one with no render hint writes a list
/// of one as its element; with the `List` hint it stays a list of one.
pub proof fn lemma_scalar_collapse(x: LitV, def: ParamDef)
    requires
        def.kind == ParamType::List,
        def.len == Some(1usize),
    ensures
        def.render is None ==> render_spec(LitV::List(seq![x]), Some(def)) == x,
        def.render == Some(RenderHint::List) ==> render_spec(LitV::List(seq![x]), Some(def))
            == LitV::List(seq![x]),
{
}

/// The labels a node derives from its edges are those of its incoming (or
/// outgoing) edges, all of them, in ascending order of edge id.
pub proof fn lemma_edge_labels_by_id(edges: Seq<Edge>, node_id: usize, incoming: bool)
    ensures
        keys_sorted(sort_by_key(edge_pairs(edges, node_id, incoming))),
        sort_by_key(edge_pairs(edges, node_id, incoming)).len() == edge_pairs(edges, node_id, incoming).len(),
        forall|i: int| 0 <= i < sort_by_key(edge_pairs(edges, node_id, incoming)).len()
            ==> edge_pairs(edges, node_id, incoming).contains(#[trigger] sort_by_key(edge_pairs(edges, node_id, incoming))[i]),
        edge_labels(edges, node_id, incoming) == sort_by_key(edge_pairs(edges, node_id, incoming)).map_values(
            |p: (u64, String)| p.1@,
        ),
{
    let s = edge_pairs(edges, node_id, incoming);
    lemma_sort_sorted(s);
    let p = |e: (u64, String)| s.contains(e);
    assert forall|i: int| 0 <= i < s.len() implies p(#[trigger] s[i]) by {
        assert(s.contains(s[i]));
    }
    lemma_sort_preserves(s, p);
}

/// Nodes are visited by ascending id: the visiting order lists every node
/// position once per entry, keyed by that node's id, in ascending key order.
pub proof fn lemma_nodes_visited_by_id(nodes: Seq<NodeInstance>)
    requires
        nodes.len() <= usize::MAX,
    ensures
        keys_sorted(node_order(nodes)),
        node_order(nodes).len() == nodes.len(),
        forall|k: int| 0 <= k < node_order(nodes).len() ==> {
            let e = #[trigger] node_order(nodes)[k];
            &&& (e.1 as int) < nodes.len()
            &&& e.0 == nodes[e.1 as int].id as u64
        },
{
    let s = Seq::new(nodes.len(), |i: int| (nodes[i].id as u64, i as usize));
    lemma_sort_sorted(s);
    let p = |e: (u64, usize)| (e.1 as int) < nodes.len() && e.0 == nodes[e.1 as int].id as u64;
    assert forall|i: int| 0 <= i < s.len() implies p(#[trigger] s[i]) by {
        assert((i as usize) as int == i);
    }
    lemma_sort_preserves(s, p);
    assert forall|k: int| 0 <= k < node_order(nodes).len() implies {
        let e = #[trigger] node_order(nodes)[k];
        &&& (e.1 as int) < nodes.len()
        &&& e.0 == nodes[e.1 as int].id as u64
    } by {
        assert(p(node_order(nodes)[k]));
    }
}

pub proof fn lemma_key_absent(es: Seq<(Seq<char>, LitV)>, key: Seq<char>)
    requires
        forall|j: int| 0 <= j < es.len() ==> es[j].0 != key,
    ensures
        key_index(es, key) is None,
    decreases es.len(),
{
    if es.len() > 0 {
        let rest = es.drop_first();
        assert forall|j: int| 0 <= j < rest.len() implies rest[j].0 != key by {
            assert(rest[j] == es[j + 1]);
        }
        lemma_key_absent(rest, key);
    }
}

/// Copying entries with distinct keys one by one gives the same entries.
pub proof fn lemma_copied_record_same(vals: Seq<(Seq<char>, LitV)>)
    requires
        keys_unique(vals),
    ensures
        copied_record(vals) == vals,
    decreases vals.len(),
{
    if vals.len() > 0 {
        let t = vals.drop_last();
        assert(keys_unique(t));
        lemma_copied_record_same(t);
        assert forall|j: int| 0 <= j < t.len() implies t[j].0 != vals.last().0 by {
            assert(t[j] == vals[j]);
        }
        lemma_key_absent(t, vals.last().0);
        assert(table_insert(t, vals.last().0, vals.last().1) =~= vals);
    }
}

/// A node whose type the catalog does not know is written with exactly the
/// values entered for it: nothing derived, nothing checked.
pub proof fn lemma_unknown_type_passthrough(edges: Seq<Edge>, types: Seq<(String, NodeTypeDef)>, node: NodeInstance)
    requires
        type_lookup(types, node.type_@) is None,
        node.wf(),
    ensures
        node_record(edges, types, node) == node.values_view(),
{
    lemma_copied_record_same(node.values_view());
}

/// The document and its text depend on the graph's nodes and edges and on
/// the catalog, and on nothing else.
pub proof fn lemma_output_determined(g1: &Graph, g2: &Graph, c: &NodeTypeCatalog)
    requires
        g1.nodes@ == g2.nodes@,
        g1.edges@ == g2.edges@,
    ensures
        document(g1, c) == document(g2, c),
        emitted(g1, c) == emitted(g2, c),
{
}

proof fn lemma_key_index_at(es: Seq<(Seq<char>, LitV)>, key: Seq<char>, i: int)
    requires
        0 <= i < es.len(),
        es[i].0 == key,
        forall|j: int| 0 <= j < i ==> es[j].0 != key,
    ensures
        key_index(es, key) == Some(i),
{
    lemma_key_index(es, key);
    match key_index(es, key) {
        Some(k) => {
            if k < i {
                assert(es[k].0 != key);
            } else if k > i {
                assert(es[i].0 != key);
            }
        },
        None => {
            assert(es[i].0 != key);
        },
    }
}

/// Appending a record under one key leaves every other key's value as it
/// was, and extends that key's list by the record.
proof fn lemma_table_append_get(t: Seq<(Seq<char>, LitV)>, key: Seq<char>, rec: LitV, k: Seq<char>)
    requires
        forall|j: int| 0 <= j < t.len() ==> (#[trigger] t[j]).1 is List,
    ensures
        forall|j: int| 0 <= j < table_append(t, key, rec).len() ==> (#[trigger] table_append(t, key, rec)[j]).1 is List,
        k != key ==> table_get(table_append(t, key, rec), k) == table_get(t, k),
        k == key ==> table_get(table_append(t, key, rec), k) == Some(
            match table_get(t, k) {
                Some(LitV::List(items)) => LitV::List(items.push(rec)),
                _ => LitV::List(seq![rec]),
            },
        ),
{
    let a = table_append(t, key, rec);
    lemma_key_index(t, key);
    lemma_key_index(t, k);
    lemma_table_get_index(t, k);
    lemma_table_get_index(a, k);
    match key_index(t, key) {
        Some(i) => {
            assert(a.len() == t.len());
            assert forall|j: int| 0 <= j < a.len() implies (#[trigger] a[j]).0 == t[j].0 by {}
            match key_index(t, k) {
                Some(m) => {
                    assert forall|j: int| 0 <= j < m implies a[j].0 != k by {
                        assert(a[j].0 == t[j].0);
                    }
                    assert(a[m].0 == t[m].0);
                    lemma_key_index_at(a, k, m);
                },
                None => {
                    assert forall|j: int| 0 <= j < a.len() implies a[j].0 != k by {
                        assert(a[j].0 == t[j].0);
                    }
                    crate::laws::lemma_key_absent(a, k);
                },
            }
        },
        None => {
            assert(a == t.push((key, LitV::List(seq![rec]))));
            if k == key {
                assert forall|j: int| 0 <= j < t.len() implies a[j].0 != k by {
                    assert(a[j] == t[j]);
                }
                lemma_key_index_at(a, k, t.len() as int);
            } else {
                match key_index(t, k) {
                    Some(m) => {
                        assert forall|j: int| 0 <= j < m implies a[j].0 != k by {
                            assert(a[j] == t[j]);
                        }
                        assert(a[m] == t[m]);
                        lemma_key_index_at(a, k, m);
                    },
                    None => {
                        assert forall|j: int| 0 <= j < a.len() implies a[j].0 != k by {
                            if j < t.len() {
                                assert(a[j] == t[j]);
                            }
                        }
                        crate::laws::lemma_key_absent(a, k);
                    },
                }
            }
            assert forall|j: int| 0 <= j < a.len() implies (#[trigger] a[j]).1 is List by {
                if j < t.len() {
                    assert(a[j] == t[j]);
                }
            }
        },
    }
}

/// The records of the nodes of type `tkey`, in the given visiting order.
pub open spec fn type_records(
    edges: Seq<Edge>,
    types: Seq<(String, NodeTypeDef)>,
    nodes: Seq<NodeInstance>,
    order: Seq<(u64, usize)>,
    tkey: Seq<char>,
) -> Seq<LitV>
    decreases order.len(),
{
    if order.len() == 0 {
        Seq::empty()
    } else {
        let r = type_records(edges, types, nodes, order.drop_last(), tkey);
        let node = nodes[order.last().1 as int];
        if node.type_@ == tkey {
            r.push(LitV::Table(node_record(edges, types, node)))
        } else {
            r
        }
    }
}

/// The array of a type in the assembled tables holds the records of that
/// type's nodes in visiting order; a type without nodes has no array.
pub proof fn lemma_grouped_arrays(
    edges: Seq<Edge>,
    types: Seq<(String, NodeTypeDef)>,
    nodes: Seq<NodeInstance>,
    order: Seq<(u64, usize)>,
    tkey: Seq<char>,
)
    ensures
        forall|j: int| 0 <= j < grouped(edges, types, nodes, order).len() ==> (#[trigger] grouped(edges, types, nodes, order)[j]).1 is List,
        table_get(grouped(edges, types, nodes, order), tkey) == if type_records(edges, types, nodes, order, tkey).len() == 0 {
            None
        } else {
            Some(LitV::List(type_records(edges, types, nodes, order, tkey)))
        },
    decreases order.len(),
{
    if order.len() > 0 {
        let prev = order.drop_last();
        lemma_grouped_arrays(edges, types, nodes, prev, tkey);
        let node = nodes[order.last().1 as int];
        let t = grouped(edges, types, nodes, prev);
        let rec = LitV::Table(node_record(edges, types, node));
        lemma_table_append_get(t, node.type_@, rec, tkey);
        let before = type_records(edges, types, nodes, prev, tkey);
        if before.len() == 0 {
            assert(seq![rec] =~= before.push(rec));
        }
    }
}

/// Records of one type are written in ascending order of node id: the
/// nodes are visited by ascending id, and each type's array holds the
/// records of its nodes in visiting order.
pub proof fn lemma_records_follow_ids(g: &Graph, c: &NodeTypeCatalog, tkey: Seq<char>)
    requires
        g.nodes@.len() <= usize::MAX,
    ensures
        keys_sorted(node_order(g.nodes@)),
        document(g, c)->Table_0[0].1 == LitV::Table(grouped(g.edges@, c.nodes.types@, g.nodes@, node_order(g.nodes@))),
        table_get(grouped(g.edges@, c.nodes.types@, g.nodes@, node_order(g.nodes@)), tkey) == if type_records(
            g.edges@,
            c.nodes.types@,
            g.nodes@,
            node_order(g.nodes@),
            tkey,
        ).len() == 0 {
            None
        } else {
            Some(LitV::List(type_records(g.edges@, c.nodes.types@, g.nodes@, node_order(g.nodes@), tkey)))
        },
{
    lemma_nodes_visited_by_id(g.nodes@);
    lemma_grouped_arrays(g.edges@, c.nodes.types@, g.nodes@, node_order(g.nodes@), tkey);
}

/// Binding one key leaves the values of the other keys as they were.
pub proof fn lemma_insert_get(es: Seq<(Seq<char>, LitV)>, k2: Seq<char>, v2: LitV, k: Seq<char>)
    ensures
        table_get(table_insert(es, k2, v2), k) == if k2 == k {
            Some(v2)
        } else {
            table_get(es, k)
        },
{
    let r = table_insert(es, k2, v2);
    lemma_key_index(es, k2);
    lemma_key_index(es, k);
    lemma_table_get_index(es, k);
    lemma_table_get_index(r, k);
    assert(r.len() >= es.len());
    match key_index(es, k2) {
        Some(i) => {
            assert forall|j: int| 0 <= j < r.len() implies (#[trigger] r[j]).0 == es[j].0 by {}
            match key_index(es, k) {
                Some(m) => {
                    assert forall|j: int| 0 <= j < m implies r[j].0 != k by {
                        assert(r[j].0 == es[j].0);
                    }
                    assert(r[m].0 == es[m].0);
                    lemma_key_index_at(r, k, m);
                },
                None => {
                    assert forall|j: int| 0 <= j < r.len() implies r[j].0 != k by {
                        assert(r[j].0 == es[j].0);
                    }
                    lemma_key_absent(r, k);
                },
            }
        },
        None => {
            match key_index(es, k) {
                Some(m) => {
                    assert forall|j: int| 0 <= j < m implies r[j].0 != k by {
                        assert(r[j] == es[j]);
                    }
                    assert(r[m] == es[m]);
                    lemma_key_index_at(r, k, m);
                },
                None => {
                    if k2 == k {
                        assert forall|j: int| 0 <= j < es.len() implies r[j].0 != k by {
                            assert(r[j] == es[j]);
                        }
                        lemma_key_index_at(r, k, es.len() as int);
                    } else {
                        assert forall|j: int| 0 <= j < r.len() implies r[j].0 != k by {
                            if j < es.len() {
                                assert(r[j] == es[j]);
                            }
                        }
                        lemma_key_absent(r, k);
                    }
                },
            }
        },
    }
}

proof fn lemma_known_record_explicit(
    edges: Seq<Edge>,
    node: NodeInstance,
    params: Seq<(String, ParamDef)>,
    m: int,
    n: int,
    v: LitV,
)
    requires
        names_unique(params),
        0 <= m < n <= params.len(),
        table_get(node.values_view(), params[m].0@) == Some(v),
    ensures
        table_get(known_record(edges, node, params.subrange(0, n)), params[m].0@) == Some(
            render_spec(v, Some(params[m].1)),
        ),
    decreases n,
{
    let pre = params.subrange(0, n);
    let k = params[m].0@;
    assert(pre.drop_last() =~= params.subrange(0, n - 1));
    let kd = pre.last();
    let rec = known_record(edges, node, pre.drop_last());
    if n - 1 == m {
        lemma_explicit_value_wins(edges, node, k, kd.1, v);
        lemma_insert_get(rec, k, render_spec(v, Some(kd.1)), k);
    } else {
        lemma_known_record_explicit(edges, node, params, m, n - 1, v);
        assert(params[n - 1].0@ != k);
        match resolve_spec(edges, node, kd.0@, kd.1) {
            Some(w) => lemma_insert_get(rec, kd.0@, render_spec(w, Some(kd.1)), k),
            None => {},
        }
    }
}

/// In the record assembled for a node of a known type, a parameter with an
/// entered value holds that value shaped by the parameter's render hint,
/// whatever derivation rule the parameter has.
pub proof fn lemma_explicit_value_in_record(
    edges: Seq<Edge>,
    types: Seq<(String, NodeTypeDef)>,
    node: NodeInstance,
    m: int,
    v: LitV,
)
    requires
        type_lookup(types, node.type_@) is Some,
        names_unique(type_lookup(types, node.type_@)->0.params@),
        0 <= m < type_lookup(types, node.type_@)->0.params@.len(),
        table_get(node.values_view(), type_lookup(types, node.type_@)->0.params@[m].0@) == Some(v),
    ensures
        ({
            let params = type_lookup(types, node.type_@)->0.params@;
            table_get(node_record(edges, types, node), params[m].0@) == Some(render_spec(v, Some(params[m].1)))
        }),
{
    let params = type_lookup(types, node.type_@)->0.params@;
    lemma_known_record_explicit(edges, node, params, m, params.len() as int, v);
    assert(params.subrange(0, params.len() as int) =~= params);
}

} // verus!
