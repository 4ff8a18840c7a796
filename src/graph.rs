use vstd::prelude::*;
use crate::edge::Edge;
use crate::literal::{Literal, LitV, items_view, entries_view, table_get, table_insert, key_index, get_entry, key_position, table_insert_entry, lemma_list_view, lemma_table_view, lemma_key_index};
use crate::node_builder::{NodeInstance, NodeTypeCatalog, NodeTypeDef, NodeTypesSection, ParamDef, ParamSource, ParamType, RenderHint, type_lookup};
use crate::text::string_views;
use crate::toml_bridge::{toml_document_text, render_document};
use crate::emit::{render_failure, render_error, assign_text, concat_texts, name_sort, kt_view, opt_text, order_view, concat_pieces, sort_named, render_assignment, lemma_concat_missing};

verus! {

/// Nodes and edges, appended in editing order.
#[derive(Debug)]
pub struct Graph {
    pub nodes: Vec<NodeInstance>,
    pub edges: Vec<Edge>,
}

/// `s` with `x` placed after every element whose key is not larger.
pub open spec fn insert_by_key<T>(s: Seq<(u64, T)>, x: (u64, T)) -> Seq<(u64, T)>
    decreases s.len(),
{
    if s.len() == 0 {
        seq![x]
    } else if s.last().0 <= x.0 {
        s.push(x)
    } else {
        insert_by_key(s.drop_last(), x).push(s.last())
    }
}

/// `s` stably sorted by key.
pub open spec fn sort_by_key<T>(s: Seq<(u64, T)>) -> Seq<(u64, T)>
    decreases s.len(),
{
    if s.len() == 0 {
        s
    } else {
        insert_by_key(sort_by_key(s.drop_last()), s.last())
    }
}

fn insert_sorted<T>(v: Vec<(u64, T)>, x: (u64, T)) -> (r: Vec<(u64, T)>)
    ensures
        r@ == insert_by_key(v@, x),
    decreases v.len(),
{
    let mut v = v;
    if v.len() == 0 {
        v.push(x);
        return v;
    }
    let ghost s = v@;
    let last = v.pop().unwrap();
    assert(v@ == s.drop_last());
    if last.0 <= x.0 {
        v.push(last);
        v.push(x);
        assert(v@ =~= s.push(x));
        v
    } else {
        let mut r = insert_sorted(v, x);
        r.push(last);
        r
    }
}

fn sort_pairs<T>(v: Vec<(u64, T)>) -> (r: Vec<(u64, T)>)
    ensures
        r@ == sort_by_key(v@),
    decreases v.len(),
{
    let mut v = v;
    if v.len() == 0 {
        return v;
    }
    let ghost s = v@;
    let last = v.pop().unwrap();
    assert(v@ == s.drop_last());
    let sorted = sort_pairs(v);
    insert_sorted(sorted, last)
}

/// The (id, label) pairs of the edges that end (`incoming`) or start at the
/// node, in the order the edges were added.
pub open spec fn edge_pairs(edges: Seq<Edge>, node_id: usize, incoming: bool) -> Seq<(u64, String)>
    decreases edges.len(),
{
    if edges.len() == 0 {
        Seq::empty()
    } else {
        let p = edge_pairs(edges.drop_last(), node_id, incoming);
        let e = edges.last();
        let end = if incoming {
            e.to
        } else {
            e.from
        };
        if end == node_id as u64 {
            p.push((e.id, e.label))
        } else {
            p
        }
    }
}

/// The labels of the node's incoming (or outgoing) edges, by ascending
/// edge id; edges with equal ids keep the order they were added in.
pub open spec fn edge_labels(edges: Seq<Edge>, node_id: usize, incoming: bool) -> Seq<Seq<char>> {
    sort_by_key(edge_pairs(edges, node_id, incoming)).map_values(|p: (u64, String)| p.1@)
}

#[verifier::loop_isolation(false)]
fn edge_labels_of(graph: &Graph, node_id: usize, incoming: bool) -> (r: Vec<String>)
    ensures
        string_views(r@) == edge_labels(graph.edges@, node_id, incoming),
{
    let mut pairs: Vec<(u64, String)> = Vec::new();
    let mut i: usize = 0;
    while i < graph.edges.len()
        invariant
            i <= graph.edges.len(),
            pairs@ == edge_pairs(graph.edges@.subrange(0, i as int), node_id, incoming),
        decreases graph.edges.len() - i,
    {
        let ghost next = graph.edges@.subrange(0, i + 1);
        assert(next.drop_last() =~= graph.edges@.subrange(0, i as int));
        let e = &graph.edges[i];
        let end = if incoming {
            e.to
        } else {
            e.from
        };
        if end == node_id as u64 {
            pairs.push((e.id, e.label.clone()));
        }
        i = i + 1;
    }
    assert(graph.edges@.subrange(0, graph.edges.len() as int) =~= graph.edges@);
    let sorted = sort_pairs(pairs);
    let mut labels: Vec<String> = Vec::new();
    let mut j: usize = 0;
    while j < sorted.len()
        invariant
            j <= sorted.len(),
            string_views(labels@) == sorted@.map_values(|p: (u64, String)| p.1@).subrange(
                0,
                j as int,
            ),
        decreases sorted.len() - j,
    {
        let l = sorted[j].1.clone();
        let ghost before = labels@;
        labels.push(l);
        assert(string_views(labels@) =~= sorted@.map_values(|p: (u64, String)| p.1@).subrange(
            0,
            j + 1,
        ));
        j = j + 1;
    }
    assert(sorted@.map_values(|p: (u64, String)| p.1@).subrange(0, sorted.len() as int)
        =~= sorted@.map_values(|p: (u64, String)| p.1@));
    labels
}

/// The labels of the edges into `node_id`, by ascending edge id.
pub fn incoming_edge_labels(graph: &Graph, node_id: usize) -> (r: Vec<String>)
    ensures
        string_views(r@) == edge_labels(graph.edges@, node_id, true),
{
    edge_labels_of(graph, node_id, true)
}

/// The labels of the edges out of `node_id`, by ascending edge id.
pub fn outgoing_edge_labels(graph: &Graph, node_id: usize) -> (r: Vec<String>)
    ensures
        string_views(r@) == edge_labels(graph.edges@, node_id, false),
{
    edge_labels_of(graph, node_id, false)
}

pub open spec fn str_list(labels: Seq<Seq<char>>) -> LitV {
    LitV::List(labels.map_values(|l: Seq<char>| LitV::Str(l)))
}

/// The label at `index` (0 when none is given), if there is one.
pub open spec fn pick_label(labels: Seq<Seq<char>>, index: Option<usize>) -> Option<LitV> {
    let i: int = match index {
        Some(i) => i as int,
        None => 0,
    };
    if i < labels.len() {
        Some(LitV::Str(labels[i]))
    } else {
        None
    }
}

/// The value a derivation rule computes for a node.
pub open spec fn source_value(edges: Seq<Edge>, node: NodeInstance, source: ParamSource) -> Option<
    LitV,
> {
    match source {
        ParamSource::NodeLabel => Some(LitV::Str(node.label@)),
        ParamSource::IncomingEdgeLabels => Some(str_list(edge_labels(edges, node.id, true))),
        ParamSource::OutgoingEdgeLabels => Some(str_list(edge_labels(edges, node.id, false))),
        ParamSource::IncomingEdgeLabel { index } => pick_label(edge_labels(edges, node.id, true), index),
        ParamSource::OutgoingEdgeLabel { index } => pick_label(
            edge_labels(edges, node.id, false),
            index,
        ),
    }
}

#[verifier::loop_isolation(false)]
fn string_list(labels: Vec<String>) -> (r: Literal)
    ensures
        r@ == str_list(string_views(labels@)),
{
    let mut items: Vec<Literal> = Vec::new();
    let mut i: usize = 0;
    while i < labels.len()
        invariant
            i <= labels.len(),
            items_view(items@) == string_views(labels@).subrange(0, i as int).map_values(
                |l: Seq<char>| LitV::Str(l),
            ),
        decreases labels.len() - i,
    {
        let ghost before = items@;
        let l = Literal::Str(labels[i].clone());
        assert(l@ == LitV::Str(string_views(labels@)[i as int]));
        items.push(l);
        assert(items_view(items@) =~= items_view(before).push(l@));
        assert(items_view(items@) =~= string_views(labels@).subrange(0, i + 1).map_values(
            |l: Seq<char>| LitV::Str(l),
        ));
        i = i + 1;
    }
    assert(string_views(labels@).subrange(0, labels.len() as int) =~= string_views(labels@));
    proof { lemma_list_view(items); }
    Literal::List(items)
}

fn pick(labels: Vec<String>, index: Option<usize>) -> (r: Option<Literal>)
    ensures
        match pick_label(string_views(labels@), index) {
            Some(v) => r matches Some(l) && l@ == v,
            None => r is None,
        },
{
    let i: usize = match index {
        Some(i) => i,
        None => 0,
    };
    if i < labels.len() {
        assert(string_views(labels@)[i as int] == labels@[i as int]@);
        Some(Literal::Str(labels[i].clone()))
    } else {
        None
    }
}

/// Computes the value a derivation rule gives a node.
pub fn value_from_source(graph: &Graph, node: &NodeInstance, source: &ParamSource) -> (r: Option<
    Literal,
>)
    ensures
        match source_value(graph.edges@, *node, *source) {
            Some(v) => r matches Some(l) && l@ == v,
            None => r is None,
        },
{
    match source {
        ParamSource::NodeLabel => Some(Literal::Str(node.label.clone())),
        ParamSource::IncomingEdgeLabels => Some(string_list(incoming_edge_labels(graph, node.id))),
        ParamSource::OutgoingEdgeLabels => Some(string_list(outgoing_edge_labels(graph, node.id))),
        ParamSource::IncomingEdgeLabel { index } => pick(incoming_edge_labels(graph, node.id), *index),
        ParamSource::OutgoingEdgeLabel { index } => pick(outgoing_edge_labels(graph, node.id), *index),
    }
}

/// A list of exactly one element, unwrapped; any other value unchanged.
pub open spec fn unwrap_single(v: LitV) -> LitV {
    match v {
        LitV::List(items) => if items.len() == 1 {
            items[0]
        } else {
            v
        },
        _ => v,
    }
}

/// How a resolved value is shaped for output.
pub open spec fn render_spec(v: LitV, def: Option<ParamDef>) -> LitV {
    match def {
        None => v,
        Some(d) => match d.render {
            Some(RenderHint::Scalar) => unwrap_single(v),
            Some(RenderHint::List) => if v is List {
                v
            } else {
                LitV::List(seq![v])
            },
            None => if d.kind == ParamType::List && d.len == Some(1usize) {
                unwrap_single(v)
            } else {
                v
            },
        },
    }
}

pub open spec fn opt_def(def: Option<&ParamDef>) -> Option<ParamDef> {
    match def {
        Some(d) => Some(*d),
        None => None,
    }
}

fn unwrap_single_list(value: Literal) -> (r: Literal)
    ensures
        r@ == unwrap_single(value@),
{
    match value {
        Literal::List(items) => {
            proof { lemma_list_view(items); }
            if items.len() == 1 {
                let mut items = items;
                let x = items.remove(0);
                x
            } else {
                Literal::List(items)
            }
        },
        other => other,
    }
}

/// Shapes a value for output as the parameter's render hint says.
pub fn apply_render_hint(value: Literal, def: Option<&ParamDef>) -> (r: Literal)
    ensures
        r@ == render_spec(value@, opt_def(def)),
{
    let d = match def {
        Some(d) => d,
        None => return value,
    };
    match d.render {
        Some(RenderHint::Scalar) => unwrap_single_list(value),
        Some(RenderHint::List) => match value {
            Literal::List(items) => Literal::List(items),
            other => {
                let mut items: Vec<Literal> = Vec::new();
                items.push(other);
                proof { lemma_list_view(items); }
                assert(items_view(items@) =~= seq![other@]);
                Literal::List(items)
            },
        },
        None => {
            let single = match d.len {
                Some(n) => n == 1,
                None => false,
            };
            if d.kind == ParamType::List && single {
                unwrap_single_list(value)
            } else {
                value
            }
        },
    }
}

/// The effective value of a parameter of a node: the value entered for it,
/// else the value its derivation rule gives, else none.
pub open spec fn resolve_spec(edges: Seq<Edge>, node: NodeInstance, key: Seq<char>, def: ParamDef) -> Option<
    LitV,
> {
    match table_get(node.values_view(), key) {
        Some(v) => Some(v),
        None => match def.source {
            Some(s) => source_value(edges, node, s),
            None => None,
        },
    }
}

/// Resolves the effective value of the parameter `key` of `node`.
pub fn resolve_param(graph: &Graph, node: &NodeInstance, key: &String, def: &ParamDef) -> (r: Option<
    Literal,
>)
    ensures
        match resolve_spec(graph.edges@, *node, key@, *def) {
            Some(v) => r matches Some(l) && l@ == v,
            None => r is None,
        },
        table_get(node.values_view(), key@) matches Some(v) ==> r matches Some(l) && l@ == v,
{
    match get_entry(&node.values, key) {
        Some(v) => Some(v),
        None => match &def.source {
            Some(s) => value_from_source(graph, node, s),
            None => None,
        },
    }
}

pub proof fn lemma_insert_preserves<T>(s: Seq<(u64, T)>, x: (u64, T), p: spec_fn((u64, T)) -> bool)
    requires
        forall|i: int| 0 <= i < s.len() ==> p(#[trigger] s[i]),
        p(x),
    ensures
        insert_by_key(s, x).len() == s.len() + 1,
        forall|i: int| 0 <= i < insert_by_key(s, x).len() ==> p(#[trigger] insert_by_key(s, x)[i]),
    decreases s.len(),
{
    if s.len() > 0 && s.last().0 > x.0 {
        lemma_insert_preserves(s.drop_last(), x, p);
        let r = insert_by_key(s.drop_last(), x);
        assert forall|i: int| 0 <= i < r.push(s.last()).len() implies p(#[trigger] r.push(s.last())[i]) by {
            if i < r.len() {
                assert(r.push(s.last())[i] == r[i]);
            } else {
                assert(p(s[s.len() - 1]));
            }
        }
    } else if s.len() > 0 {
        assert forall|i: int| 0 <= i < s.push(x).len() implies p(#[trigger] s.push(x)[i]) by {
            if i < s.len() {
                assert(s.push(x)[i] == s[i]);
            }
        }
    }
}

/// Sorting keeps the length, and every property that all elements have.
pub proof fn lemma_sort_preserves<T>(s: Seq<(u64, T)>, p: spec_fn((u64, T)) -> bool)
    requires
        forall|i: int| 0 <= i < s.len() ==> p(#[trigger] s[i]),
    ensures
        sort_by_key(s).len() == s.len(),
        forall|i: int| 0 <= i < sort_by_key(s).len() ==> p(#[trigger] sort_by_key(s)[i]),
    decreases s.len(),
{
    if s.len() > 0 {
        let t = s.drop_last();
        assert forall|i: int| 0 <= i < t.len() implies p(#[trigger] t[i]) by {
            assert(t[i] == s[i]);
        }
        lemma_sort_preserves(t, p);
        assert(p(s[s.len() - 1]));
        lemma_insert_preserves(sort_by_key(t), s.last(), p);
    }
}

/// The record of a node of a known type: each declared parameter whose
/// value resolves, shaped by its render hint.
pub open spec fn known_record(edges: Seq<Edge>, node: NodeInstance, params: Seq<(String, ParamDef)>) -> Seq<
    (Seq<char>, LitV),
>
    decreases params.len(),
{
    if params.len() == 0 {
        Seq::empty()
    } else {
        let rec = known_record(edges, node, params.drop_last());
        let kd = params.last();
        match resolve_spec(edges, node, kd.0@, kd.1) {
            Some(v) => table_insert(rec, kd.0@, render_spec(v, Some(kd.1))),
            None => rec,
        }
    }
}

/// The entries copied one by one into a fresh table.
pub open spec fn copied_record(values: Seq<(Seq<char>, LitV)>) -> Seq<(Seq<char>, LitV)>
    decreases values.len(),
{
    if values.len() == 0 {
        Seq::empty()
    } else {
        table_insert(copied_record(values.drop_last()), values.last().0, values.last().1)
    }
}

/// The record written for a node: resolved parameters for a known type,
/// the entered values unchanged for an unknown one.
pub open spec fn node_record(edges: Seq<Edge>, types: Seq<(String, NodeTypeDef)>, node: NodeInstance) -> Seq<
    (Seq<char>, LitV),
> {
    match type_lookup(types, node.type_@) {
        Some(td) => known_record(edges, node, td.params@),
        None => copied_record(node.values_view()),
    }
}

/// `t` with `rec` appended to the array under `key`, which is created when
/// missing.
pub open spec fn table_append(t: Seq<(Seq<char>, LitV)>, key: Seq<char>, rec: LitV) -> Seq<
    (Seq<char>, LitV),
> {
    match key_index(t, key) {
        Some(i) => t.update(
            i,
            (
                key,
                match t[i].1 {
                    LitV::List(items) => LitV::List(items.push(rec)),
                    other => other,
                },
            ),
        ),
        None => t.push((key, LitV::List(seq![rec]))),
    }
}

/// The nodes' (id, position) pairs, ordered by ascending id.
pub open spec fn node_order(nodes: Seq<NodeInstance>) -> Seq<(u64, usize)> {
    sort_by_key(Seq::new(nodes.len(), |i: int| (nodes[i].id as u64, i as usize)))
}

/// The arrays of records by type name, filled in the given node order.
pub open spec fn grouped(
    edges: Seq<Edge>,
    types: Seq<(String, NodeTypeDef)>,
    nodes: Seq<NodeInstance>,
    order: Seq<(u64, usize)>,
) -> Seq<(Seq<char>, LitV)>
    decreases order.len(),
{
    if order.len() == 0 {
        Seq::empty()
    } else {
        let t = grouped(edges, types, nodes, order.drop_last());
        let node = nodes[order.last().1 as int];
        table_append(t, node.type_@, LitV::Table(node_record(edges, types, node)))
    }
}

/// The document assembled from a graph under a catalog.
pub open spec fn document(g: &Graph, c: &NodeTypeCatalog) -> LitV {
    LitV::Table(
        seq![(c.root_key(), LitV::Table(grouped(g.edges@, c.nodes.types@, g.nodes@, node_order(g.nodes@))))],
    )
}

fn table_append_entry(t: &mut Vec<(String, Literal)>, key: String, rec: Literal)
    ensures
        entries_view(final(t)@) == table_append(entries_view(old(t)@), key@, rec@),
{
    let ghost kv = key@;
    let ghost ov = entries_view(t@);
    proof { lemma_key_index(ov, kv); }
    match key_position(t, &key) {
        Some(i) => {
            let (k, v) = t.remove(i);
            let ghost vv = v@;
            assert(vv == ov[i as int].1);
            let v2 = match v {
                Literal::List(items) => {
                    proof { lemma_list_view(items); }
                    let mut items = items;
                    let ghost before = items@;
                    items.push(rec);
                    proof { lemma_list_view(items); }
                    assert(items_view(items@) =~= items_view(before).push(rec@));
                    Literal::List(items)
                },
                other => other,
            };
            t.insert(i, (k, v2));
            assert(entries_view(t@) =~= table_append(ov, kv, rec@));
        },
        None => {
            let ghost rv = rec@;
            let mut items: Vec<Literal> = Vec::new();
            items.push(rec);
            proof { lemma_list_view(items); }
            assert(items_view(items@) =~= seq![rv]);
            t.push((key, Literal::List(items)));
            assert(entries_view(t@) =~= table_append(ov, kv, rv));
        },
    }
}

impl Graph {
    /// A valid graph holds only valid nodes.
    pub open spec fn wf(&self) -> bool {
        forall|i: int| 0 <= i < self.nodes@.len() ==> (#[trigger] self.nodes@[i]).wf()
    }

    pub fn new() -> (r: Self)
        ensures
            r.wf(),
            r.nodes@.len() == 0,
            r.edges@.len() == 0,
    {
        Graph { nodes: Vec::new(), edges: Vec::new() }
    }

    pub fn add_node(&mut self, node: NodeInstance)
        ensures
            final(self).nodes@ == old(self).nodes@.push(node),
            final(self).edges@ == old(self).edges@,
    {
        self.nodes.push(node);
    }

    pub fn add_edge(&mut self, edge: Edge)
        ensures
            final(self).edges@ == old(self).edges@.push(edge),
            final(self).nodes@ == old(self).nodes@,
    {
        self.edges.push(edge);
    }

    fn record_for(&self, types: &NodeTypesSection, node: &NodeInstance) -> (r: Vec<(String, Literal)>)
        ensures
            entries_view(r@) == node_record(self.edges@, types.types@, *node),
    {
        let mut rec: Vec<(String, Literal)> = Vec::new();
        match types.get(&node.type_) {
            Some(td) => {
                let ghost params = td.params@;
                let mut i: usize = 0;
                assert(entries_view(rec@) =~= Seq::<(Seq<char>, LitV)>::empty());
                while i < td.params.len()
                    invariant
                        i <= td.params.len(),
                        params == td.params@,
                        entries_view(rec@) == known_record(self.edges@, *node, params.subrange(0, i as int)),
                    decreases td.params.len() - i,
                {
                    let ghost next = params.subrange(0, i + 1);
                    assert(next.drop_last() =~= params.subrange(0, i as int));
                    let key = &td.params[i].0;
                    let def = &td.params[i].1;
                    match resolve_param(self, node, key, def) {
                        Some(v) => {
                            let shaped = apply_render_hint(v, Some(def));
                            table_insert_entry(&mut rec, key.clone(), shaped);
                        },
                        None => {},
                    }
                    i = i + 1;
                }
                assert(params.subrange(0, td.params.len() as int) =~= params);
            },
            None => {
                let ghost vals = node.values_view();
                let mut i: usize = 0;
                assert(entries_view(rec@) =~= Seq::<(Seq<char>, LitV)>::empty());
                while i < node.values.len()
                    invariant
                        i <= node.values.len(),
                        vals == node.values_view(),
                        entries_view(rec@) == copied_record(vals.subrange(0, i as int)),
                    decreases node.values.len() - i,
                {
                    let ghost next = vals.subrange(0, i + 1);
                    assert(next.drop_last() =~= vals.subrange(0, i as int));
                    let v = node.values[i].1.duplicate();
                    table_insert_entry(&mut rec, node.values[i].0.clone(), v);
                    i = i + 1;
                }
                assert(vals.subrange(0, node.values.len() as int) =~= vals);
            },
        }
        rec
    }

    /// The arrays of records by type name, nodes visited by ascending id.
    fn grouped_table(&self, catalog: &NodeTypeCatalog) -> (r: Vec<(String, Literal)>)
        ensures
            entries_view(r@) == grouped(self.edges@, catalog.nodes.types@, self.nodes@, node_order(self.nodes@)),
    {
        let mut idx: Vec<(u64, usize)> = Vec::new();
        let mut i: usize = 0;
        while i < self.nodes.len()
            invariant
                i <= self.nodes.len(),
                idx@ == Seq::new(i as nat, |k: int| (self.nodes@[k].id as u64, k as usize)),
            decreases self.nodes.len() - i,
        {
            idx.push((self.nodes[i].id as u64, i));
            assert(idx@ =~= Seq::new((i + 1) as nat, |k: int| (self.nodes@[k].id as u64, k as usize)));
            i = i + 1;
        }
        let ghost n = self.nodes@.len();
        let ghost inb = |p: (u64, usize)| (p.1 as int) < n;
        assert forall|k: int| 0 <= k < idx@.len() implies #[trigger] inb(idx@[k]) by {}
        proof { lemma_sort_preserves(idx@, inb); }
        let order = sort_pairs(idx);
        assert forall|k: int| 0 <= k < order@.len() implies (#[trigger] order@[k].1 as int) < n by {
            assert(inb(order@[k]));
        }
        let mut table: Vec<(String, Literal)> = Vec::new();
        let mut j: usize = 0;
        assert(entries_view(table@) =~= Seq::<(Seq<char>, LitV)>::empty());
        while j < order.len()
            invariant
                j <= order.len(),
                order@ == node_order(self.nodes@),
                n == self.nodes@.len(),
                forall|k: int| 0 <= k < order@.len() ==> (#[trigger] order@[k].1 as int) < n,
                entries_view(table@) == grouped(
                    self.edges@,
                    catalog.nodes.types@,
                    self.nodes@,
                    order@.subrange(0, j as int),
                ),
            decreases order.len() - j,
        {
            let ghost next = order@.subrange(0, j + 1);
            assert(next.drop_last() =~= order@.subrange(0, j as int));
            assert((order@[j as int].1 as int) < n);
            let node = &self.nodes[order[j].1];
            let rec = self.record_for(&catalog.nodes, node);
            proof { lemma_table_view(rec); }
            table_append_entry(&mut table, node.type_.clone(), Literal::Table(rec));
            j = j + 1;
        }
        assert(order@.subrange(0, order.len() as int) =~= order@);
        table
    }

    /// Assembles the document: one array of records per node type, under
    /// the root table, with nodes visited by ascending id.
    pub fn to_template_toml_value(&self, catalog: &NodeTypeCatalog) -> (r: Literal)
        ensures
            r@ == document(self, catalog),
    {
        let root_key = root_key_of(catalog);
        let table = self.grouped_table(catalog);
        proof { lemma_table_view(table); }
        let mut root: Vec<(String, Literal)> = Vec::new();
        let ghost tv = Literal::Table(table)@;
        let ghost rk = root_key@;
        root.push((root_key, Literal::Table(table)));
        proof { lemma_table_view(root); }
        assert(entries_view(root@) =~= seq![(rk, tv)]);
        Literal::Table(root)
    }
}

pub fn root_key_of(catalog: &NodeTypeCatalog) -> (r: String)
    ensures
        r@ == catalog.root_key(),
{
    match &catalog.format {
        Some(f) => f.root.clone(),
        None => String::from_str("units"),
    }
}

/// The explicit key order of a type, if the catalog gives one.
pub open spec fn type_order(types: Seq<(String, NodeTypeDef)>, tkey: Seq<char>) -> Option<Seq<Seq<char>>> {
    match type_lookup(types, tkey) {
        Some(td) => match td.order {
            Some(o) => Some(string_views(o@)),
            None => None,
        },
        None => None,
    }
}

pub open spec fn assign_texts(es: Seq<(Seq<char>, LitV)>) -> Seq<(Seq<char>, Option<Seq<char>>)> {
    Seq::new(es.len(), |i: int| (es[i].0, assign_text(es[i].0, es[i].1)))
}

/// The block of one record: its header and its lines in key order, then a
/// blank line.
pub open spec fn record_text(
    root: Seq<char>,
    tkey: Seq<char>,
    es: Seq<(Seq<char>, LitV)>,
    order: Option<Seq<Seq<char>>>,
) -> Option<Seq<char>> {
    match concat_texts(name_sort(assign_texts(es), order)) {
        Some(b) => Some("[["@ + root + "."@ + tkey + "]]\n"@ + b + "\n"@),
        None => None,
    }
}

/// The blocks of the records of one type, in array order.
pub open spec fn section_text(
    root: Seq<char>,
    tkey: Seq<char>,
    items: Seq<LitV>,
    order: Option<Seq<Seq<char>>>,
) -> Option<Seq<char>>
    decreases items.len(),
{
    if items.len() == 0 {
        Some(Seq::empty())
    } else {
        let last = match items.last() {
            LitV::Table(es) => record_text(root, tkey, es, order),
            _ => Some(Seq::empty()),
        };
        match (section_text(root, tkey, items.drop_last(), order), last) {
            (Some(a), Some(b)) => Some(a + b),
            _ => None,
        }
    }
}

pub open spec fn type_texts(
    root: Seq<char>,
    rt: Seq<(Seq<char>, LitV)>,
    types: Seq<(String, NodeTypeDef)>,
) -> Seq<(Seq<char>, Option<Seq<char>>)> {
    Seq::new(
        rt.len(),
        |i: int|
            (
                rt[i].0,
                match rt[i].1 {
                    LitV::List(items) => section_text(root, rt[i].0, items, type_order(types, rt[i].0)),
                    _ => Some(Seq::empty()),
                },
            ),
    )
}

/// The text of a document: the root header, then the sections of the types
/// in lexical order.
pub open spec fn doc_text(root: Seq<char>, rt: Seq<(Seq<char>, LitV)>, types: Seq<(String, NodeTypeDef)>) -> Option<
    Seq<char>,
> {
    match concat_texts(name_sort(type_texts(root, rt, types), None)) {
        Some(b) => Some("["@ + root + "]\n\n"@ + b),
        None => None,
    }
}

/// The extra top-level tables of the catalog's format.
pub open spec fn extra_tables(c: &NodeTypeCatalog) -> Seq<(Seq<char>, LitV)> {
    match c.format {
        Some(f) => entries_view(f.tables@),
        None => Seq::empty(),
    }
}

/// The extra entries written as toml writes them, each followed by a blank
/// line: the tables when `tables` holds, else the other values.
pub open spec fn extra_texts(x: Seq<(Seq<char>, LitV)>, tables: bool) -> Seq<(Seq<char>, Option<Seq<char>>)> {
    Seq::new(
        x.len(),
        |i: int|
            (
                x[i].0,
                if (x[i].1 is Table) == tables {
                    match toml_document_text(x[i].0, x[i].1) {
                        Some(t) => Some(t + "\n"@),
                        None => None,
                    }
                } else {
                    Some(Seq::empty())
                },
            ),
    )
}

/// The text written for a graph under a catalog, if every value has a
/// literal form: the catalog's extra entries (values, then tables, each in
/// lexical order), then the document.
pub open spec fn emitted(g: &Graph, c: &NodeTypeCatalog) -> Option<Seq<char>> {
    match (
        concat_texts(name_sort(extra_texts(extra_tables(c), false), None)),
        concat_texts(name_sort(extra_texts(extra_tables(c), true), None)),
        doc_text(c.root_key(), grouped(g.edges@, c.nodes.types@, g.nodes@, node_order(g.nodes@)), c.nodes.types@),
    ) {
        (Some(a), Some(b), Some(d)) => Some(a + b + d),
        _ => None,
    }
}

pub proof fn lemma_section_missing(
    root: Seq<char>,
    tkey: Seq<char>,
    items: Seq<LitV>,
    order: Option<Seq<Seq<char>>>,
    i: int,
)
    requires
        0 <= i <= items.len(),
        section_text(root, tkey, items.subrange(0, i), order) is None,
    ensures
        section_text(root, tkey, items, order) is None,
    decreases items.len() - i,
{
    if i == items.len() {
        assert(items.subrange(0, i) =~= items);
    } else {
        assert(items.drop_last().subrange(0, i) =~= items.subrange(0, i));
        lemma_section_missing(root, tkey, items.drop_last(), order, i);
    }
}

fn render_record(root: &String, tkey: &String, es: &Vec<(String, Literal)>, order: Option<&Vec<String>>) -> (r: Result<String, String>)
    ensures
        r matches Err(e) ==> e@ == render_failure(),
        r is Ok <==> record_text(root@, tkey@, entries_view(es@), order_view(order)) is Some,
        r matches Ok(t) ==> record_text(root@, tkey@, entries_view(es@), order_view(order)) == Some(t@),
{
    let ghost ev = entries_view(es@);
    let mut kts: Vec<(String, Option<String>)> = Vec::new();
    let mut i: usize = 0;
    while i < es.len()
        invariant
            i <= es.len(),
            ev == entries_view(es@),
            kt_view(kts@) == assign_texts(ev).subrange(0, i as int),
        decreases es.len() - i,
    {
        assert(ev[i as int] == (es@[i as int].0@, es@[i as int].1@));
        let t = match render_assignment(es[i].0.as_str(), &es[i].1) {
            Ok(t) => Some(t),
            Err(_) => None,
        };
        let ghost before = kts@;
        let ghost tv = opt_text(t);
        kts.push((es[i].0.clone(), t));
        assert(kt_view(kts@) =~= kt_view(before).push((ev[i as int].0, tv)));
        assert(kt_view(kts@) =~= assign_texts(ev).subrange(0, i + 1));
        i = i + 1;
    }
    assert(assign_texts(ev).subrange(0, es.len() as int) =~= assign_texts(ev));
    let sorted = sort_named(kts, order);
    match concat_pieces(&sorted) {
        Some(body) => {
            let mut out = String::from_str("[[");
            out.append(root.as_str());
            out.append(".");
            out.append(tkey.as_str());
            out.append("]]\n");
            out.append(body.as_str());
            out.append("\n");
            Ok(out)
        },
        None => Err(render_error()),
    }
}

fn render_section(root: &String, tkey: &String, items: &Vec<Literal>, order: Option<&Vec<String>>) -> (r: Result<String, String>)
    ensures
        r matches Err(e) ==> e@ == render_failure(),
        r is Ok <==> section_text(root@, tkey@, items_view(items@), order_view(order)) is Some,
        r matches Ok(t) ==> section_text(root@, tkey@, items_view(items@), order_view(order)) == Some(t@),
{
    let ghost iv = items_view(items@);
    let mut acc = String::new();
    let mut i: usize = 0;
    assert(iv.subrange(0, 0) =~= Seq::<LitV>::empty());
    while i < items.len()
        invariant
            i <= items.len(),
            iv == items_view(items@),
            section_text(root@, tkey@, iv.subrange(0, i as int), order_view(order)) == Some(acc@),
        decreases items.len() - i,
    {
        let ghost next = iv.subrange(0, i + 1);
        assert(next.drop_last() =~= iv.subrange(0, i as int));
        assert(next.last() == items@[i as int]@);
        match &items[i] {
            Literal::Table(es) => {
                proof { lemma_table_view(*es); }
                match render_record(root, tkey, es, order) {
                    Ok(t) => acc.append(t.as_str()),
                    Err(e) => {
                        proof { lemma_section_missing(root@, tkey@, iv, order_view(order), i + 1); }
                        return Err(e);
                    },
                }
            },
            _ => {
                assert(acc@ + Seq::<char>::empty() =~= acc@);
            },
        }
        i = i + 1;
    }
    assert(iv.subrange(0, items.len() as int) =~= iv);
    Ok(acc)
}

/// The extra entries of one kind, written by toml, in lexical order.
fn extra_text(extras: &Vec<(String, Literal)>, tables: bool) -> (r: Option<String>)
    ensures
        r matches Some(t) ==> concat_texts(name_sort(extra_texts(entries_view(extras@), tables), None)) == Some(t@),
        r is None ==> concat_texts(name_sort(extra_texts(entries_view(extras@), tables), None)) is None,
{
    let ghost xv = entries_view(extras@);
    let mut texts: Vec<(String, Option<String>)> = Vec::new();
    let mut i: usize = 0;
    while i < extras.len()
        invariant
            i <= extras.len(),
            xv == entries_view(extras@),
            kt_view(texts@) == extra_texts(xv, tables).subrange(0, i as int),
        decreases extras.len() - i,
    {
        assert(xv[i as int] == (extras@[i as int].0@, extras@[i as int].1@));
        let is_table = match &extras[i].1 {
            Literal::Table(_) => true,
            _ => false,
        };
        let t = if is_table == tables {
            match render_document(extras[i].0.as_str(), &extras[i].1) {
                Ok(t) => {
                    let mut t = t;
                    t.append("\n");
                    Some(t)
                },
                Err(_) => None,
            }
        } else {
            Some(String::new())
        };
        let ghost before = texts@;
        let ghost tv = opt_text(t);
        texts.push((extras[i].0.clone(), t));
        assert(kt_view(texts@) =~= kt_view(before).push((xv[i as int].0, tv)));
        assert(kt_view(texts@) =~= extra_texts(xv, tables).subrange(0, i + 1));
        i = i + 1;
    }
    assert(extra_texts(xv, tables).subrange(0, extras.len() as int) =~= extra_texts(xv, tables));
    let sorted = sort_named(texts, None);
    concat_pieces(&sorted)
}

impl Graph {
    /// Writes the document: the root header, then per type in lexical
    /// order one block per record.
    fn document_text(&self, catalog: &NodeTypeCatalog) -> (r: Result<String, String>)
        ensures
            r matches Err(e) ==> e@ == render_failure(),
            r is Ok <==> doc_text(catalog.root_key(), grouped(self.edges@, catalog.nodes.types@, self.nodes@, node_order(self.nodes@)), catalog.nodes.types@) is Some,
            r matches Ok(t) ==> doc_text(catalog.root_key(), grouped(self.edges@, catalog.nodes.types@, self.nodes@, node_order(self.nodes@)), catalog.nodes.types@) == Some(t@),
    {
        let root = root_key_of(catalog);
        let rt = self.grouped_table(catalog);
        let ghost rv = entries_view(rt@);
        let mut texts: Vec<(String, Option<String>)> = Vec::new();
            let mut i: usize = 0;
        while i < rt.len()
            invariant
                i <= rt.len(),
                rv == entries_view(rt@),
                kt_view(texts@) == type_texts(root@, rv, catalog.nodes.types@).subrange(0, i as int),
            decreases rt.len() - i,
        {
            assert(rv[i as int] == (rt@[i as int].0@, rt@[i as int].1@));
            let t = match &rt[i].1 {
                Literal::List(items) => {
                    proof { lemma_list_view(*items); }
                    let order = match catalog.nodes.get(&rt[i].0) {
                        Some(td) => match &td.order {
                            Some(o) => Some(o),
                            None => None,
                        },
                        None => None,
                    };
                    match render_section(&root, &rt[i].0, items, order) {
                        Ok(t) => Some(t),
                        Err(_) => None,
                    }
                },
                _ => Some(String::new()),
            };
            let ghost before = texts@;
            let ghost tv = opt_text(t);
            texts.push((rt[i].0.clone(), t));
            assert(kt_view(texts@) =~= kt_view(before).push((rv[i as int].0, tv)));
            assert(kt_view(texts@) =~= type_texts(root@, rv, catalog.nodes.types@).subrange(0, i + 1));
            i = i + 1;
        }
        assert(type_texts(root@, rv, catalog.nodes.types@).subrange(0, rt.len() as int) =~= type_texts(
            root@,
            rv,
            catalog.nodes.types@,
        ));
        let sorted = sort_named(texts, None);
        match concat_pieces(&sorted) {
            Some(body) => {
                let mut out = String::from_str("[");
                out.append(root.as_str());
                out.append("]\n\n");
                out.append(body.as_str());
                Ok(out)
            },
            None => Err(render_error()),
        }
    }

    /// Writes the whole output: the catalog's extra entries, then the
    /// document.
    pub fn to_template_toml_string(&self, catalog: &NodeTypeCatalog) -> (r: Result<String, String>)
        ensures
            r matches Err(e) ==> e@ == render_failure(),
            r is Ok <==> emitted(self, catalog) is Some,
            r matches Ok(t) ==> emitted(self, catalog) == Some(t@),
    {
        let empty: Vec<(String, Literal)> = Vec::new();
        let extras = match &catalog.format {
            Some(f) => &f.tables,
            None => &empty,
        };
        assert(entries_view(extras@) == extra_tables(catalog)) by {
            assert(entries_view(empty@) =~= Seq::<(Seq<char>, LitV)>::empty());
        }
        let values = match extra_text(extras, false) {
            Some(t) => t,
            None => return Err(render_error()),
        };
        let tables = match extra_text(extras, true) {
            Some(t) => t,
            None => return Err(render_error()),
        };
        let body = match self.document_text(catalog) {
            Ok(t) => t,
            Err(e) => return Err(e),
        };
        let mut out = values;
        out.append(tables.as_str());
        out.append(body.as_str());
        Ok(out)
    }

    /// The same text as `to_template_toml_string`.
    pub fn to_units_toml_string(&self, catalog: &NodeTypeCatalog) -> (r: Result<String, String>)
        ensures
            r matches Err(e) ==> e@ == render_failure(),
            r is Ok <==> emitted(self, catalog) is Some,
            r matches Ok(t) ==> emitted(self, catalog) == Some(t@),
    {
        self.to_template_toml_string(catalog)
    }
}

/// The largest node id, or 0 when there are no nodes.
pub open spec fn max_node_id(nodes: Seq<NodeInstance>) -> int
    decreases nodes.len(),
{
    if nodes.len() == 0 {
        0
    } else {
        let m = max_node_id(nodes.drop_last());
        if nodes.last().id > m {
            nodes.last().id as int
        } else {
            m
        }
    }
}

pub proof fn lemma_max_node_id_bound(nodes: Seq<NodeInstance>)
    requires
        forall|i: int| 0 <= i < nodes.len() ==> (#[trigger] nodes[i]).id < usize::MAX,
    ensures
        0 <= max_node_id(nodes) < usize::MAX,
        forall|i: int| 0 <= i < nodes.len() ==> (#[trigger] nodes[i]).id <= max_node_id(nodes),
    decreases nodes.len(),
{
    if nodes.len() > 0 {
        let t = nodes.drop_last();
        assert forall|i: int| 0 <= i < t.len() implies (#[trigger] t[i]).id < usize::MAX by {
            assert(t[i] == nodes[i]);
        }
        lemma_max_node_id_bound(t);
        assert forall|i: int| 0 <= i < nodes.len() implies (#[trigger] nodes[i]).id <= max_node_id(nodes) by {
            if i < t.len() {
                assert(t[i] == nodes[i]);
            }
        }
    }
}

impl Graph {
    /// The first node with this id.
    pub fn get_node(&self, id: usize) -> (r: Option<&NodeInstance>)
        ensures
            r is None ==> forall|i: int| 0 <= i < self.nodes@.len() ==> (#[trigger] self.nodes@[i]).id != id,
            r matches Some(n) ==> exists|i: int|
                0 <= i < self.nodes@.len() && self.nodes@[i] == *n && n.id == id && forall|j: int|
                    0 <= j < i ==> (#[trigger] self.nodes@[j]).id != id,
    {
        let mut i: usize = 0;
        while i < self.nodes.len()
            invariant
                i <= self.nodes.len(),
                forall|j: int| 0 <= j < i ==> (#[trigger] self.nodes@[j]).id != id,
            decreases self.nodes.len() - i,
        {
            if self.nodes[i].id == id {
                return Some(&self.nodes[i]);
            }
            i = i + 1;
        }
        None
    }

    /// The first edge with this id.
    pub fn get_edge(&self, id: u64) -> (r: Option<&Edge>)
        ensures
            r is None ==> forall|i: int| 0 <= i < self.edges@.len() ==> (#[trigger] self.edges@[i]).id != id,
            r matches Some(e) ==> exists|i: int|
                0 <= i < self.edges@.len() && self.edges@[i] == *e && e.id == id && forall|j: int|
                    0 <= j < i ==> (#[trigger] self.edges@[j]).id != id,
    {
        let mut i: usize = 0;
        while i < self.edges.len()
            invariant
                i <= self.edges.len(),
                forall|j: int| 0 <= j < i ==> (#[trigger] self.edges@[j]).id != id,
            decreases self.edges.len() - i,
        {
            if self.edges[i].id == id {
                return Some(&self.edges[i]);
            }
            i = i + 1;
        }
        None
    }

    /// The id for a new node: one more than the largest id, 1 when there
    /// are no nodes.
    pub fn get_new_node_id(&self) -> (r: usize)
        requires
            forall|i: int| 0 <= i < self.nodes@.len() ==> (#[trigger] self.nodes@[i]).id < usize::MAX,
        ensures
            r == max_node_id(self.nodes@) + 1,
    {
        proof { lemma_max_node_id_bound(self.nodes@); }
        let mut m: usize = 0;
        let mut i: usize = 0;
        assert(self.nodes@.subrange(0, 0) =~= Seq::<NodeInstance>::empty());
        while i < self.nodes.len()
            invariant
                i <= self.nodes.len(),
                m == max_node_id(self.nodes@.subrange(0, i as int)),
                0 <= max_node_id(self.nodes@) < usize::MAX,
                forall|k: int| 0 <= k < self.nodes@.len() ==> (#[trigger] self.nodes@[k]).id < usize::MAX,
            decreases self.nodes.len() - i,
        {
            let ghost next = self.nodes@.subrange(0, i + 1);
            assert(next.drop_last() =~= self.nodes@.subrange(0, i as int));
            if self.nodes[i].id > m {
                m = self.nodes[i].id;
            }
            i = i + 1;
        }
        assert(self.nodes@.subrange(0, self.nodes.len() as int) =~= self.nodes@);
        m + 1
    }
}

} // verus!
