use vstd::prelude::*;
use crate::edge::Edge;
use crate::emit::{kt_view, name_sort, sort_named};
use crate::graph::Graph;
use crate::literal::{Literal, LitV, keys_unique, entries_view, items_view, table_get, table_insert, get_entry, table_insert_entry, lemma_list_view};
use crate::node_builder::{NodeInstance, NodeTypeCatalog, NodeTypeDef, NodeTypesSection, ParamDef, ParamSource, ParamType, ValueType};
use crate::parse::{parse_param_value, ParseError};
use crate::text::{chars_of, str_eq, string_views, trim_chars};

verus! {

fn param(kind: ParamType, value_type: Option<ValueType>, len: Option<usize>, source: Option<ParamSource>) -> (r: ParamDef)
    ensures
        r == (ParamDef { kind, value_type, len, source, render: None }),
{
    ParamDef { kind, value_type, len, source, render: None }
}

/// What the built-in catalog holds.
pub open spec fn is_default_catalog(r: NodeTypeCatalog) -> bool {
    &&& r.format is None
    &&& r.nodes.types@.len() == 2
    &&& r.nodes.types@[0].0@ == "cstr"@
    &&& r.nodes.types@[1].0@ == "sensor"@
    &&& r.nodes.types@[0].1.order is None
    &&& r.nodes.types@[1].1.order is None
    &&& r.nodes.types@[0].1.params@.len() == 3
    &&& r.nodes.types@[1].1.params@.len() == 1
    &&& r.nodes.types@[0].1.params@[0].0@ == "name"@
    &&& r.nodes.types@[0].1.params@[0].1 == (ParamDef {
            kind: ParamType::String,
            value_type: None,
            len: None,
            source: Some(ParamSource::NodeLabel),
            render: None,
        })
    &&& r.nodes.types@[0].1.params@[1].0@ == "out"@
    &&& r.nodes.types@[0].1.params@[1].1 == (ParamDef {
            kind: ParamType::List,
            value_type: Some(ValueType::String),
            len: Some(1),
            source: Some(ParamSource::OutgoingEdgeLabel { index: None }),
            render: None,
        })
    &&& r.nodes.types@[0].1.params@[2].0@ == "coords"@
    &&& r.nodes.types@[0].1.params@[2].1 == (ParamDef {
            kind: ParamType::Table,
            value_type: Some(ValueType::Float),
            len: None,
            source: None,
            render: None,
        })
    &&& r.nodes.types@[1].1.params@[0].0@ == "in"@
    &&& r.nodes.types@[1].1.params@[0].1 == (ParamDef {
            kind: ParamType::List,
            value_type: Some(ValueType::String),
            len: Some(1),
            source: Some(ParamSource::IncomingEdgeLabel { index: None }),
            render: None,
        })
}

/// The built-in catalog: `cstr` nodes with a name, one output and
/// coordinates; `sensor` nodes with one input.
pub fn load_node_catalog_default() -> (r: NodeTypeCatalog)
    ensures
        r.wf(),
        is_default_catalog(r),
{
    let mut cstr: Vec<(String, ParamDef)> = Vec::new();
    cstr.push((String::from_str("name"), param(ParamType::String, None, None, Some(ParamSource::NodeLabel))));
    cstr.push((
        String::from_str("out"),
        param(ParamType::List, Some(ValueType::String), Some(1), Some(ParamSource::OutgoingEdgeLabel { index: None })),
    ));
    cstr.push((String::from_str("coords"), param(ParamType::Table, Some(ValueType::Float), None, None)));
    let mut sensor: Vec<(String, ParamDef)> = Vec::new();
    sensor.push((
        String::from_str("in"),
        param(ParamType::List, Some(ValueType::String), Some(1), Some(ParamSource::IncomingEdgeLabel { index: None })),
    ));
    let mut types: Vec<(String, NodeTypeDef)> = Vec::new();
    types.push((String::from_str("cstr"), NodeTypeDef { order: None, params: cstr }));
    types.push((String::from_str("sensor"), NodeTypeDef { order: None, params: sensor }));
    proof {
        reveal_strlit("cstr");
        reveal_strlit("sensor");
        reveal_strlit("name");
        reveal_strlit("out");
        reveal_strlit("coords");
        assert("cstr"@[0] != "sensor"@[0]);
        assert("name"@[0] != "out"@[0]);
        assert("name"@[0] != "coords"@[0]);
        assert("out"@[0] != "coords"@[0]);
    }
    NodeTypeCatalog { format: None, nodes: NodeTypesSection { types } }
}

/// Relies on `String::push`: `c` appended.
#[verifier::external_body]
fn push_char(s: &mut String, c: char)
    ensures
        final(s)@ == old(s)@.push(c),
{
    s.push(c);
}

/// Relies on `String::pop`: the last character removed, if any.
#[verifier::external_body]
fn pop_char(s: &mut String)
    ensures
        old(s)@.len() > 0 ==> final(s)@ == old(s)@.drop_last(),
        old(s)@.len() == 0 ==> final(s)@ == old(s)@,
{
    s.pop();
}

/// The values of a node after the stream `value` is recorded under `key`:
/// added to the list there unless already in it, a differing single string
/// becomes a list of two, anything else becomes a list of one.
pub open spec fn list_value_after(values: Seq<(Seq<char>, LitV)>, key: Seq<char>, value: Seq<char>) -> Seq<
    (Seq<char>, LitV),
> {
    if value.len() == 0 {
        values
    } else {
        match table_get(values, key) {
            Some(LitV::List(items)) => if items.contains(LitV::Str(value)) {
                values
            } else {
                table_insert(values, key, LitV::List(items.push(LitV::Str(value))))
            },
            Some(LitV::Str(e)) => if e == value {
                values
            } else {
                table_insert(values, key, LitV::List(seq![LitV::Str(e), LitV::Str(value)]))
            },
            _ => table_insert(values, key, LitV::List(seq![LitV::Str(value)])),
        }
    }
}

fn holds_str(items: &Vec<Literal>, value: &str) -> (r: bool)
    ensures
        r == items_view(items@).contains(LitV::Str(value@)),
{
    let mut i: usize = 0;
    while i < items.len()
        invariant
            i <= items.len(),
            forall|k: int| 0 <= k < i ==> items_view(items@)[k] != LitV::Str(value@),
        decreases items.len() - i,
    {
        assert(items_view(items@)[i as int] == items@[i as int]@);
        match &items[i] {
            Literal::Str(x) => {
                if str_eq(x.as_str(), value) {
                    assert(items_view(items@)[i as int] == LitV::Str(value@));
                    return true;
                }
            },
            _ => {},
        }
        i = i + 1;
    }
    false
}

/// Records the stream `value` under `key` in a node's values.
pub fn apply_list_value(node: &mut NodeInstance, key: &str, value: &str)
    ensures
        old(node).wf() ==> final(node).wf(),
        final(node).values_view() == list_value_after(old(node).values_view(), key@, value@),
        final(node).id == old(node).id,
        final(node).type_ == old(node).type_,
        final(node).label == old(node).label,
{
    let vc = chars_of(value);
    if vc.len() == 0 {
        return;
    }
    let k = String::from_str(key);
    let entry = Literal::Str(String::from_str(value));
    match get_entry(&node.values, &k) {
        Some(Literal::List(items)) => {
            proof { lemma_list_view(items); }
            if !holds_str(&items, value) {
                let mut items = items;
                let ghost before = items@;
                items.push(entry);
                proof { lemma_list_view(items); }
                assert(items_view(items@) =~= items_view(before).push(LitV::Str(value@)));
                table_insert_entry(&mut node.values, k, Literal::List(items));
            }
        },
        Some(Literal::Str(existing)) => {
            if !str_eq(existing.as_str(), value) {
                let ghost ev = existing@;
                let mut items: Vec<Literal> = Vec::new();
                items.push(Literal::Str(existing));
                items.push(entry);
                proof { lemma_list_view(items); }
                assert(items_view(items@) =~= seq![LitV::Str(ev), LitV::Str(value@)]);
                table_insert_entry(&mut node.values, k, Literal::List(items));
            }
        },
        _ => {
            let mut items: Vec<Literal> = Vec::new();
            items.push(entry);
            proof { lemma_list_view(items); }
            assert(items_view(items@) =~= seq![LitV::Str(value@)]);
            table_insert_entry(&mut node.values, k, Literal::List(items));
        },
    }
}

/// The position of the first node with this id.
pub open spec fn first_node_with(nodes: Seq<NodeInstance>, id: usize) -> Option<int>
    decreases nodes.len(),
{
    if nodes.len() == 0 {
        None
    } else if nodes[0].id == id {
        Some(0)
    } else {
        match first_node_with(nodes.drop_first(), id) {
            Some(i) => Some(i + 1),
            None => None,
        }
    }
}

proof fn lemma_first_node_with(nodes: Seq<NodeInstance>, id: usize)
    ensures
        first_node_with(nodes, id) matches Some(i) ==> 0 <= i < nodes.len() && nodes[i].id == id
            && forall|j: int| 0 <= j < i ==> nodes[j].id != id,
        first_node_with(nodes, id) is None ==> forall|j: int| 0 <= j < nodes.len() ==> nodes[j].id != id,
    decreases nodes.len(),
{
    if nodes.len() > 0 {
        let rest = nodes.drop_first();
        lemma_first_node_with(rest, id);
        assert forall|j: int| 1 <= j < nodes.len() implies nodes[j] == rest[j - 1] by {}
    }
}

/// `new` is `old` with the stream recorded under `key` on the first node
/// with id `node_id`; unchanged when there is none.
pub open spec fn node_io_updated(
    old: Seq<NodeInstance>,
    new: Seq<NodeInstance>,
    node_id: u64,
    key: Seq<char>,
    stream: Seq<char>,
) -> bool {
    &&& new.len() == old.len()
    &&& node_id > usize::MAX ==> new == old
    &&& node_id <= usize::MAX ==> match first_node_with(old, node_id as usize) {
        None => new == old,
        Some(i) => {
            &&& forall|j: int| 0 <= j < old.len() && j != i ==> new[j] == old[j]
            &&& new[i].values_view() == list_value_after(old[i].values_view(), key, stream)
            &&& new[i].id == old[i].id
            &&& new[i].type_ == old[i].type_
            &&& new[i].label == old[i].label
        },
    }
}

/// Every node of `old` keeps its place, id, type and label in `new`.
pub open spec fn nodes_kept(old: Seq<NodeInstance>, new: Seq<NodeInstance>) -> bool {
    &&& old.len() <= new.len()
    &&& forall|i: int|
        0 <= i < old.len() ==> (#[trigger] new[i]).id == old[i].id && new[i].type_ == old[i].type_ && new[i].label
            == old[i].label
}

proof fn lemma_io_kept(old: Seq<NodeInstance>, new: Seq<NodeInstance>, node_id: u64, key: Seq<char>, stream: Seq<char>)
    requires
        node_io_updated(old, new, node_id, key, stream),
    ensures
        nodes_kept(old, new),
        new.len() == old.len(),
{
    if node_id <= usize::MAX {
        lemma_first_node_with(old, node_id as usize);
    }
}

proof fn lemma_kept_trans(a: Seq<NodeInstance>, b: Seq<NodeInstance>, c: Seq<NodeInstance>)
    requires
        nodes_kept(a, b),
        nodes_kept(b, c),
    ensures
        nodes_kept(a, c),
{
    assert forall|i: int| 0 <= i < a.len() implies (#[trigger] c[i]).id == a[i].id && c[i].type_ == a[i].type_
        && c[i].label == a[i].label by {
        assert(b[i].id == a[i].id);
        assert(c[i].id == b[i].id);
    }
}

/// Records the stream `stream` under `key` on the first node with id
/// `node_id`; nothing happens when there is none.
#[verifier::loop_isolation(false)]
pub fn update_node_io(nodes: &mut Vec<NodeInstance>, node_id: u64, key: &str, stream: &str)
    ensures
        (forall|j: int| 0 <= j < old(nodes)@.len() ==> (#[trigger] old(nodes)@[j]).wf()) ==> forall|j: int| 0 <= j < final(nodes)@.len() ==> (#[trigger] final(nodes)@[j]).wf(),
        node_io_updated(old(nodes)@, final(nodes)@, node_id, key@, stream@),
{
    if node_id as u128 > usize::MAX as u128 {
        return;
    }
    let id = node_id as usize;
    proof { lemma_first_node_with(nodes@, id); }
    let mut i: usize = 0;
    while i < nodes.len()
        invariant
            i <= nodes.len(),
            nodes@ == old(nodes)@,
            forall|j: int| 0 <= j < i ==> (#[trigger] nodes@[j]).id != id,
        decreases nodes.len() - i,
    {
        if nodes[i].id == id {
            let ghost before = nodes@;
            assert(first_node_with(before, id) == Some(i as int));
            let mut n = nodes.remove(i);
            apply_list_value(&mut n, key, stream);
            nodes.insert(i, n);
            assert forall|j: int| 0 <= j < before.len() && j != i implies nodes@[j] == before[j] by {
                if j < i {
                } else {
                }
            }
            return;
        }
        i = i + 1;
    }
}

#[derive(Debug, Clone, Copy, PartialEq, Eq, Structural)]
pub enum CurrentScreen {
    Main,
    Graph,
    GraphEditor,
    NodeEditor,
    EdgeEditor,
    Exiting,
}

#[derive(Debug, Clone, Copy, PartialEq, Eq, Structural)]
pub enum NodeEditorMode {
    Type,
    Label,
    Param,
}

#[derive(Debug, Clone, Copy, PartialEq, Eq, Structural)]
pub enum InOut {
    From,
    To,
}

#[derive(Debug, Clone, Copy, PartialEq, Eq, Structural)]
pub enum EdgeEditorMode {
    Label,
    InOuts(InOut),
}

#[derive(Debug, Clone, Copy, PartialEq, Eq, Structural)]
pub enum CurrentlyEditing {
    Node(NodeEditorMode),
    Edge(EdgeEditorMode),
}

/// A key press, as the editor sees it.
#[derive(Debug, Clone, Copy, PartialEq, Eq, Structural)]
pub enum Key {
    Char(char),
    Enter,
    Up,
    Down,
    Backspace,
    Esc,
    Tab,
    Other,
}

/// Keys whose values come from edges or the label, not from typing.
pub open spec fn is_io_key(k: Seq<char>) -> bool {
    k == "name"@ || k == "in"@ || k == "out"@ || k == "ins"@ || k == "outs"@
}

/// The keyed entries (no text) for the parameters that are typed in, in
/// declaration order.
pub open spec fn editable_keys(params: Seq<(String, ParamDef)>) -> Seq<(Seq<char>, Option<Seq<char>>)>
    decreases params.len(),
{
    if params.len() == 0 {
        Seq::empty()
    } else {
        let rest = editable_keys(params.drop_last());
        let k = params.last().0@;
        if is_io_key(k) {
            rest
        } else {
            rest.push((k, None))
        }
    }
}

/// The definition of the first parameter named `key`.
pub open spec fn param_lookup(params: Seq<(String, ParamDef)>, key: Seq<char>) -> Option<ParamDef>
    decreases params.len(),
{
    if params.len() == 0 {
        None
    } else if params[0].0@ == key {
        Some(params[0].1)
    } else {
        param_lookup(params.drop_first(), key)
    }
}

fn is_io_name(k: &String) -> (r: bool)
    ensures
        r == is_io_key(k@),
{
    str_eq(k.as_str(), "name") || str_eq(k.as_str(), "in") || str_eq(k.as_str(), "out") || str_eq(
        k.as_str(),
        "ins",
    ) || str_eq(k.as_str(), "outs")
}

fn names_of(v: &Vec<(String, Option<String>)>) -> (r: Vec<String>)
    ensures
        string_views(r@) == kt_view(v@).map_values(|p: (Seq<char>, Option<Seq<char>>)| p.0),
{
    let mut r: Vec<String> = Vec::new();
    let mut i: usize = 0;
    while i < v.len()
        invariant
            i <= v.len(),
            string_views(r@) == kt_view(v@).map_values(|p: (Seq<char>, Option<Seq<char>>)| p.0).subrange(0, i as int),
        decreases v.len() - i,
    {
        let ghost before = r@;
        let k = v[i].0.clone();
        assert(kt_view(v@)[i as int].0 == k@);
        r.push(k);
        assert(string_views(r@) =~= string_views(before).push(k@));
        assert(string_views(r@) =~= kt_view(v@).map_values(|p: (Seq<char>, Option<Seq<char>>)| p.0).subrange(0, i + 1));
        i = i + 1;
    }
    assert(kt_view(v@).map_values(|p: (Seq<char>, Option<Seq<char>>)| p.0).subrange(0, v.len() as int)
        =~= kt_view(v@).map_values(|p: (Seq<char>, Option<Seq<char>>)| p.0));
    r
}

/// The type names of a catalog in lexical order.
pub fn node_type_keys(catalog: &NodeTypeCatalog) -> (r: Vec<String>)
    ensures
        string_views(r@) == name_sort(
            catalog.nodes.types@.map_values(|t: (String, NodeTypeDef)| (t.0@, None::<Seq<char>>)),
            None,
        ).map_values(|p: (Seq<char>, Option<Seq<char>>)| p.0),
{
    let types = &catalog.nodes.types;
    let mut keyed: Vec<(String, Option<String>)> = Vec::new();
    let mut i: usize = 0;
    while i < types.len()
        invariant
            i <= types.len(),
            kt_view(keyed@) == types@.map_values(|t: (String, NodeTypeDef)| (t.0@, None::<Seq<char>>)).subrange(0, i as int),
        decreases types.len() - i,
    {
        let ghost before = keyed@;
        let k = types[i].0.clone();
        assert(types@.map_values(|t: (String, NodeTypeDef)| (t.0@, None::<Seq<char>>))[i as int] == (k@, None::<Seq<char>>));
        keyed.push((k, None));
        assert(kt_view(keyed@) =~= kt_view(before).push((k@, None::<Seq<char>>)));
        assert(kt_view(keyed@) =~= types@.map_values(|t: (String, NodeTypeDef)| (t.0@, None::<Seq<char>>)).subrange(0, i + 1));
        i = i + 1;
    }
    assert(types@.map_values(|t: (String, NodeTypeDef)| (t.0@, None::<Seq<char>>)).subrange(0, types.len() as int)
        =~= types@.map_values(|t: (String, NodeTypeDef)| (t.0@, None::<Seq<char>>)));
    let sorted = sort_named(keyed, None);
    names_of(&sorted)
}

/// The parameters of a node being entered, one at a time.
#[derive(Debug)]
pub struct NodeEditState {
    pub node_type: String,
    pub param_keys: Vec<String>,
    pub index: usize,
    pub buffer: String,
    pub values: Vec<(String, Literal)>,
    pub error: Option<ParseError>,
    pub params: Vec<(String, ParamDef)>,
}

impl NodeEditState {
    /// Starts entering a node of the given type: the parameters to type are
    /// those that are not filled from edges or the label, in lexical order.
    pub fn new(node_type: String, def: &NodeTypeDef) -> (r: Self)
        ensures
            keys_unique(entries_view(r.values@)),
            r.node_type == node_type,
            string_views(r.param_keys@) == name_sort(editable_keys(def.params@), None).map_values(
                |p: (Seq<char>, Option<Seq<char>>)| p.0,
            ),
            r.index == 0,
            r.buffer@.len() == 0,
            r.values@.len() == 0,
            r.error is None,
            r.params@ == def.params@,
    {
        let mut keyed: Vec<(String, Option<String>)> = Vec::new();
        let mut params: Vec<(String, ParamDef)> = Vec::new();
        let mut i: usize = 0;
        while i < def.params.len()
            invariant
                i <= def.params.len(),
                kt_view(keyed@) == editable_keys(def.params@.subrange(0, i as int)),
                params@ == def.params@.subrange(0, i as int),
            decreases def.params.len() - i,
        {
            let ghost next = def.params@.subrange(0, i + 1);
            assert(next.drop_last() =~= def.params@.subrange(0, i as int));
            let k = def.params[i].0.clone();
            if !is_io_name(&k) {
                let ghost before = keyed@;
                keyed.push((k.clone(), None));
                assert(kt_view(keyed@) =~= kt_view(before).push((k@, None)));
            }
            params.push((k, def.params[i].1));
            assert(params@ =~= def.params@.subrange(0, i + 1));
            i = i + 1;
        }
        assert(def.params@.subrange(0, def.params.len() as int) =~= def.params@);
        let sorted = sort_named(keyed, None);
        let param_keys = names_of(&sorted);
        NodeEditState {
            node_type,
            param_keys,
            index: 0,
            buffer: String::new(),
            values: Vec::new(),
            error: None,
            params,
        }
    }

    pub fn has_params(&self) -> (r: bool)
        ensures
            r == (self.param_keys@.len() > 0),
    {
        self.param_keys.len() > 0
    }

    /// The key being entered, if any is left.
    pub fn current_key(&self) -> (r: Option<&str>)
        ensures
            self.index < self.param_keys@.len() ==> (r matches Some(k) && k@ == self.param_keys@[self.index as int]@),
            self.index >= self.param_keys@.len() ==> r is None,
    {
        if self.index < self.param_keys.len() {
            Some(self.param_keys[self.index].as_str())
        } else {
            None
        }
    }

    /// The definition of the key being entered.
    #[verifier::loop_isolation(false)]
    pub fn current_def(&self) -> (r: Option<ParamDef>)
        ensures
            self.index < self.param_keys@.len() ==> r == param_lookup(self.params@, self.param_keys@[self.index as int]@),
            self.index >= self.param_keys@.len() ==> r is None,
    {
        if self.index >= self.param_keys.len() {
            return None;
        }
        let key = &self.param_keys[self.index];
        let mut i: usize = 0;
        assert(self.params@.subrange(0, self.params@.len() as int) =~= self.params@);
        while i < self.params.len()
            invariant
                i <= self.params.len(),
                param_lookup(self.params@, key@) == param_lookup(self.params@.subrange(i as int, self.params@.len() as int), key@),
            decreases self.params.len() - i,
        {
            let ghost rest = self.params@.subrange(i as int, self.params@.len() as int);
            assert(rest.drop_first() =~= self.params@.subrange(i + 1, self.params@.len() as int));
            if self.params[i].0 == *key {
                return Some(self.params[i].1);
            }
            i = i + 1;
        }
        None
    }

    /// Stores a value under the key being entered.
    pub fn set_value(&mut self, value: Literal)
        ensures
            keys_unique(entries_view(old(self).values@)) ==> keys_unique(entries_view(final(self).values@)),
            old(self).index < old(self).param_keys@.len() ==> entries_view(final(self).values@) == table_insert(
                entries_view(old(self).values@),
                old(self).param_keys@[old(self).index as int]@,
                value@,
            ),
            old(self).index >= old(self).param_keys@.len() ==> final(self).values@ == old(self).values@,
            final(self).param_keys@ == old(self).param_keys@,
            final(self).index == old(self).index,
            final(self).node_type == old(self).node_type,
            final(self).params@ == old(self).params@,
    {
        if self.index < self.param_keys.len() {
            let k = self.param_keys[self.index].clone();
            table_insert_entry(&mut self.values, k, value);
        }
    }

    pub fn advance(&mut self)
        ensures
            final(self).node_type == old(self).node_type,
            old(self).index < old(self).param_keys@.len() ==> final(self).index == old(self).index + 1,
            old(self).index >= old(self).param_keys@.len() ==> final(self).index == old(self).index,
            final(self).param_keys@ == old(self).param_keys@,
            final(self).values@ == old(self).values@,
            final(self).params@ == old(self).params@,
    {
        if self.index < self.param_keys.len() {
            self.index = self.index + 1;
        }
    }

    pub fn is_done(&self) -> (r: bool)
        ensures
            r == (self.index >= self.param_keys@.len()),
    {
        self.index >= self.param_keys.len()
    }
}

/// The value of a decimal digit, 0 for any other character.
pub open spec fn digit_value(c: char) -> u64 {
    if '0' <= c && c <= '9' {
        (c as u32 - '0' as u32) as u64
    } else {
        0
    }
}

fn digit_of(c: char) -> (r: u64)
    ensures
        r == digit_value(c),
{
    if '0' <= c && c <= '9' {
        (c as u32 - '0' as u32) as u64
    } else {
        0
    }
}

/// The editing session: the graph, the catalog, and what is being typed.
#[derive(Debug)]
pub struct App {
    pub graph: Graph,
    pub node_catalog: NodeTypeCatalog,
    pub node_type_keys: Vec<String>,
    pub node_type_index: usize,
    pub exit: bool,
    pub label: String,
    pub in_outs: [u64; 2],
    pub current_screen: CurrentScreen,
    pub currently_editing: Option<CurrentlyEditing>,
    pub node_edit: Option<NodeEditState>,
}

/// The id for a new node, when one is left: one more than the largest.
fn next_node_id(graph: &Graph) -> (r: Option<usize>)
    ensures
        r matches Some(id) ==> id == crate::graph::max_node_id(graph.nodes@) + 1,
        r is Some <==> forall|k: int| 0 <= k < graph.nodes@.len() ==> (#[trigger] graph.nodes@[k]).id < usize::MAX,
{
    let mut i: usize = 0;
    while i < graph.nodes.len()
        invariant
            i <= graph.nodes.len(),
            forall|k: int| 0 <= k < i ==> (#[trigger] graph.nodes@[k]).id < usize::MAX,
        decreases graph.nodes.len() - i,
    {
        if graph.nodes[i].id == usize::MAX {
            return None;
        }
        i = i + 1;
    }
    Some(graph.get_new_node_id())
}

impl App {
    /// A valid session: a valid graph, and at most one typed value per key
    /// for the node being entered.
    pub open spec fn wf(&self) -> bool {
        &&& self.graph.wf()
        &&& self.node_edit matches Some(e) ==> keys_unique(entries_view(e.values@))
    }

    /// A fresh session around the built-in catalog.
    pub fn new() -> (r: Self)
        ensures
            r.wf(),
            is_default_catalog(r.node_catalog),
            r.graph.nodes@.len() == 0,
            r.graph.edges@.len() == 0,
            r.current_screen == CurrentScreen::Main,
            !r.exit,
    {
        Self::new_with_catalog(load_node_catalog_default())
    }

    /// A fresh session on the main screen, editing nothing.
    pub fn new_with_catalog(node_catalog: NodeTypeCatalog) -> (r: Self)
        ensures
            r.wf(),
            r.graph.nodes@.len() == 0,
            r.graph.edges@.len() == 0,
            r.node_catalog == node_catalog,
            string_views(r.node_type_keys@) == name_sort(
                node_catalog.nodes.types@.map_values(|t: (String, NodeTypeDef)| (t.0@, None::<Seq<char>>)),
                None,
            ).map_values(|p: (Seq<char>, Option<Seq<char>>)| p.0),
            r.node_type_index == 0,
            !r.exit,
            r.label@.len() == 0,
            r.in_outs[0] == 0 && r.in_outs[1] == 0,
            r.current_screen == CurrentScreen::Main,
            r.currently_editing is None,
            r.node_edit is None,
    {
        let node_type_keys = node_type_keys(&node_catalog);
        App {
            graph: Graph::new(),
            node_catalog,
            node_type_keys,
            node_type_index: 0,
            exit: false,
            label: String::new(),
            in_outs: [0, 0],
            current_screen: CurrentScreen::Main,
            currently_editing: None,
            node_edit: None,
        }
    }

    /// Nothing changes between key presses.
    pub fn update(&mut self)
        ensures
            *final(self) == *old(self),
    {
    }

    pub fn on_tick(&mut self)
        ensures
            *final(self) == *old(self),
    {
        self.update();
    }

    pub fn should_exit(&self) -> (r: bool)
        ensures
            r == self.exit,
    {
        self.exit
    }

    pub fn exit(&mut self)
        ensures
            final(self).exit,
            final(self).graph == old(self).graph,
            final(self).current_screen == old(self).current_screen,
    {
        self.exit = true;
    }

    /// The name of the selected node type.
    pub fn current_type_name(&self) -> (r: Option<&str>)
        ensures
            self.node_type_index < self.node_type_keys@.len() ==> (r matches Some(k) && k@
                == self.node_type_keys@[self.node_type_index as int]@),
            self.node_type_index >= self.node_type_keys@.len() ==> r is None,
    {
        if self.node_type_index < self.node_type_keys.len() {
            Some(self.node_type_keys[self.node_type_index].as_str())
        } else {
            None
        }
    }

    fn move_type_selection(&mut self, delta: i32)
        ensures
            old(self).wf() ==> final(self).wf(),
            final(self).current_screen == old(self).current_screen,
            final(self).exit == old(self).exit,
            old(self).node_type_keys@.len() == 0 ==> final(self).node_type_index == old(self).node_type_index,
            old(self).node_type_keys@.len() > 0 ==> {
                let len = old(self).node_type_keys@.len() as int;
                let next = old(self).node_type_index + delta;
                let wrapped = if next < 0 { len - 1 } else { next };
                final(self).node_type_index == if wrapped >= len { 0 } else { wrapped }
            },
            final(self).node_type_keys@ == old(self).node_type_keys@,
            final(self).graph == old(self).graph,
    {
        if self.node_type_keys.len() == 0 {
            return;
        }
        let len = self.node_type_keys.len() as i128;
        let mut next = self.node_type_index as i128 + delta as i128;
        if next < 0 {
            next = len - 1;
        }
        if next >= len {
            next = 0;
        }
        self.node_type_index = next as usize;
    }

    fn select_current_type(&mut self)
        ensures
            old(self).wf() ==> final(self).wf(),
            final(self).exit == old(self).exit,
            final(self).currently_editing == Some(CurrentlyEditing::Node(NodeEditorMode::Label)),
            final(self).graph == old(self).graph,
            final(self).current_screen == old(self).current_screen,
    {
        if self.node_type_index < self.node_type_keys.len() {
            let name = self.node_type_keys[self.node_type_index].clone();
            match self.node_catalog.nodes.get(&name) {
                Some(def) => {
                    self.node_edit = Some(NodeEditState::new(name, def));
                },
                None => {},
            }
        }
        self.currently_editing = Some(CurrentlyEditing::Node(NodeEditorMode::Label));
    }

    fn start_node_editor(&mut self)
        ensures
            old(self).wf() ==> final(self).wf(),
            final(self).exit == old(self).exit,
            final(self).label@.len() == 0,
            final(self).node_edit is None,
            final(self).node_type_index == 0,
            final(self).currently_editing == Some(CurrentlyEditing::Node(
                if old(self).node_type_keys@.len() == 0 {
                    NodeEditorMode::Label
                } else {
                    NodeEditorMode::Type
                },
            )),
            final(self).current_screen == CurrentScreen::NodeEditor,
            final(self).graph == old(self).graph,
    {
        self.label = String::new();
        self.node_edit = None;
        self.node_type_index = 0;
        if self.node_type_keys.len() == 0 {
            self.currently_editing = Some(CurrentlyEditing::Node(NodeEditorMode::Label));
        } else {
            self.currently_editing = Some(CurrentlyEditing::Node(NodeEditorMode::Type));
        }
        self.current_screen = CurrentScreen::NodeEditor;
    }

    /// Adds a node of the selected type (`unknown` when none is selected)
    /// with the typed label and the next id.
    pub fn add_node(&mut self)
        ensures
            old(self).wf() ==> final(self).wf(),
            (forall|k: int| 0 <= k < old(self).graph.nodes@.len() ==> (#[trigger] old(self).graph.nodes@[k]).id < usize::MAX) ==> {
                &&& final(self).graph.nodes@.len() == old(self).graph.nodes@.len() + 1
                &&& final(self).graph.nodes@.subrange(0, old(self).graph.nodes@.len() as int) == old(self).graph.nodes@
                &&& final(self).graph.nodes@.last().id == crate::graph::max_node_id(old(self).graph.nodes@) + 1
                &&& final(self).graph.nodes@.last().type_@ == (if old(self).node_type_index < old(self).node_type_keys@.len() {
                    old(self).node_type_keys@[old(self).node_type_index as int]@
                } else {
                    "unknown"@
                })
                &&& final(self).graph.nodes@.last().label == old(self).label
                &&& final(self).graph.nodes@.last().values@.len() == 0
            },
            !(forall|k: int| 0 <= k < old(self).graph.nodes@.len() ==> (#[trigger] old(self).graph.nodes@[k]).id < usize::MAX) ==> final(self).graph == old(self).graph,
            final(self).graph.nodes@.len() >= old(self).graph.nodes@.len(),
            final(self).graph.nodes@.len() <= old(self).graph.nodes@.len() + 1,
            final(self).graph.nodes@.subrange(0, old(self).graph.nodes@.len() as int) == old(self).graph.nodes@,
            final(self).graph.edges@ == old(self).graph.edges@,
            final(self).exit == old(self).exit,
            final(self).label == old(self).label,
            final(self).current_screen == old(self).current_screen,
            final(self).currently_editing == old(self).currently_editing,
            final(self).node_type_index == old(self).node_type_index,
            final(self).node_type_keys == old(self).node_type_keys,
    {
        let id = match next_node_id(&self.graph) {
            Some(id) => id,
            None => {
                assert(self.graph.nodes@.subrange(0, self.graph.nodes@.len() as int) =~= self.graph.nodes@);
                return;
            },
        };
        proof { reveal_strlit("unknown"); }
        let node_type = match self.current_type_name() {
            Some(name) => String::from_str(name),
            None => String::from_str("unknown"),
        };
        let instance = NodeInstance::new(id, node_type, self.label.clone());
        self.graph.add_node(instance);
        assert(self.graph.nodes@.subrange(0, old(self).graph.nodes@.len() as int) =~= old(self).graph.nodes@);
    }

    /// Parses the typed text for the current parameter and stores it; an
    /// empty text stores nothing. Returns whether the editor may move on.
    fn commit_current_param(&mut self) -> (r: bool)
        ensures
            old(self).wf() ==> final(self).wf(),
            old(self).node_edit is None ==> r && *final(self) == *old(self),
            old(self).node_edit matches Some(e) ==> (final(self).node_edit matches Some(f) && {
                &&& f.param_keys@ == e.param_keys@
                &&& f.index == e.index
                &&& f.node_type == e.node_type
                &&& f.params@ == e.params@
                &&& if e.index >= e.param_keys@.len() || param_lookup(e.params@, e.param_keys@[e.index as int]@) is None {
                    r && f.values == e.values && f.buffer == e.buffer && f.error == e.error && final(self).label == old(self).label
                } else if crate::text::trim(e.buffer@).len() == 0 {
                    r && f.values == e.values && f.buffer == e.buffer && f.error is None && final(self).label == old(self).label
                } else {
                    let d = param_lookup(e.params@, e.param_keys@[e.index as int]@)->0;
                    let key = e.param_keys@[e.index as int]@;
                    match crate::parse::parse_spec(e.buffer@, d) {
                        Ok(v) => {
                            &&& r
                            &&& entries_view(f.values@) == table_insert(entries_view(e.values@), key, v)
                            &&& f.buffer@.len() == 0
                            &&& f.error is None
                            &&& if key == "name"@ && v is Str {
                                final(self).label@ == v->Str_0
                            } else {
                                final(self).label == old(self).label
                            }
                        },
                        Err(fail) => {
                            &&& !r
                            &&& f.values == e.values
                            &&& f.buffer == e.buffer
                            &&& (f.error matches Some(er) && er.failure() == fail)
                            &&& final(self).label == old(self).label
                        },
                    }
                }
            }),
            final(self).exit == old(self).exit,
            final(self).graph == old(self).graph,
            final(self).current_screen == old(self).current_screen,
            final(self).currently_editing == old(self).currently_editing,
            final(self).node_edit is Some <==> old(self).node_edit is Some,
    {
        let mut edit = match self.node_edit.take() {
            Some(e) => e,
            None => return true,
        };
        let def = match edit.current_def() {
            Some(d) => d,
            None => {
                self.node_edit = Some(edit);
                return true;
            },
        };
        let typed = chars_of(edit.buffer.as_str());
        if trim_chars(&typed).len() == 0 {
            edit.error = None;
            self.node_edit = Some(edit);
            return true;
        }
        let ok = match parse_param_value(edit.buffer.as_str(), &def) {
            Ok(value) => {
                let is_name = match edit.current_key() {
                    Some(k) => str_eq(k, "name"),
                    None => false,
                };
                if is_name {
                    match &value {
                        Literal::Str(name) => {
                            self.label = name.clone();
                        },
                        _ => {},
                    }
                }
                edit.set_value(value);
                edit.buffer = String::new();
                edit.error = None;
                true
            },
            Err(e) => {
                edit.error = Some(e);
                false
            },
        };
        self.node_edit = Some(edit);
        ok
    }

    /// Adds the node being edited, with its typed values, and returns to the
    /// graph editor.
    fn finalize_node_edit(&mut self)
        ensures
            old(self).wf() ==> final(self).wf(),
            (forall|k: int| 0 <= k < old(self).graph.nodes@.len() ==> (#[trigger] old(self).graph.nodes@[k]).id < usize::MAX) ==> {
                let n = final(self).graph.nodes@.last();
                &&& final(self).graph.nodes@.len() == old(self).graph.nodes@.len() + 1
                &&& n.id == crate::graph::max_node_id(old(self).graph.nodes@) + 1
                &&& n.label == old(self).label
                &&& match old(self).node_edit {
                    Some(e) => n.type_ == e.node_type && n.values@ == e.values@,
                    None => n.values@.len() == 0 && n.type_@ == (if old(self).node_type_index < old(self).node_type_keys@.len() {
                        old(self).node_type_keys@[old(self).node_type_index as int]@
                    } else {
                        "unknown"@
                    }),
                }
            },
            !(forall|k: int| 0 <= k < old(self).graph.nodes@.len() ==> (#[trigger] old(self).graph.nodes@[k]).id < usize::MAX) ==> final(self).graph.nodes@ == old(self).graph.nodes@,
            nodes_kept(old(self).graph.nodes@, final(self).graph.nodes@),
            final(self).graph.nodes@.len() >= old(self).graph.nodes@.len(),
            final(self).exit == old(self).exit,
            final(self).graph.edges@ == old(self).graph.edges@,
            final(self).graph.nodes@.len() <= old(self).graph.nodes@.len() + 1,
            final(self).graph.nodes@.subrange(0, old(self).graph.nodes@.len() as int) == old(self).graph.nodes@,
            final(self).current_screen == CurrentScreen::GraphEditor,
            final(self).currently_editing is None,
            final(self).node_edit is None,
            final(self).label@.len() == 0,
    {
        let ghost before = self.graph.nodes@;
        match next_node_id(&self.graph) {
            Some(id) => {
                let instance = match self.node_edit.take() {
                    Some(edit) => {
                        let mut instance = NodeInstance::new(id, edit.node_type, self.label.clone());
                        instance.values = edit.values;
                        instance
                    },
                    None => {
                        proof { reveal_strlit("unknown"); }
                        let node_type = match self.current_type_name() {
                            Some(name) => String::from_str(name),
                            None => String::from_str("unknown"),
                        };
                        NodeInstance::new(id, node_type, self.label.clone())
                    },
                };
                self.graph.add_node(instance);
                assert(self.graph.nodes@.subrange(0, before.len() as int) =~= before);
            },
            None => {
                assert(self.graph.nodes@.subrange(0, before.len() as int) =~= before);
            },
        }
        self.label = String::new();
        self.current_screen = CurrentScreen::GraphEditor;
        self.currently_editing = None;
        self.node_edit = None;
    }

    fn advance_node_editor(&mut self)
        ensures
            old(self).wf() ==> final(self).wf(),
            final(self).graph.nodes@.len() == old(self).graph.nodes@.len() + 1 ==> {
                &&& final(self).graph.nodes@.last().id == crate::graph::max_node_id(old(self).graph.nodes@) + 1
                &&& (old(self).node_edit matches Some(e) ==> final(self).graph.nodes@.last().type_ == e.node_type)
                &&& final(self).current_screen == CurrentScreen::GraphEditor
                &&& final(self).currently_editing is None
                &&& final(self).node_edit is None
                &&& final(self).label@.len() == 0
            },
            nodes_kept(old(self).graph.nodes@, final(self).graph.nodes@),
            final(self).graph.nodes@.len() >= old(self).graph.nodes@.len(),
            final(self).current_screen == old(self).current_screen || final(self).current_screen == CurrentScreen::GraphEditor,
            final(self).exit == old(self).exit,
            final(self).graph.edges@ == old(self).graph.edges@,
            final(self).graph.nodes@.len() <= old(self).graph.nodes@.len() + 1,
            final(self).graph.nodes@.subrange(0, old(self).graph.nodes@.len() as int) == old(self).graph.nodes@,
    {
        match self.currently_editing {
            Some(CurrentlyEditing::Node(NodeEditorMode::Label)) => {
                let has = match &self.node_edit {
                    Some(edit) => edit.has_params(),
                    None => false,
                };
                if has {
                    self.currently_editing = Some(CurrentlyEditing::Node(NodeEditorMode::Param));
                    assert(self.graph.nodes@.subrange(0, self.graph.nodes@.len() as int) =~= self.graph.nodes@);
                    return;
                }
                self.finalize_node_edit();
            },
            Some(CurrentlyEditing::Node(NodeEditorMode::Param)) => {
                if self.commit_current_param() {
                    let done = match self.node_edit.take() {
                        Some(edit) => {
                            let mut edit = edit;
                            edit.advance();
                            let d = edit.is_done();
                            self.node_edit = Some(edit);
                            d
                        },
                        None => false,
                    };
                    if done {
                        self.finalize_node_edit();
                        return;
                    }
                }
                assert(self.graph.nodes@.subrange(0, self.graph.nodes@.len() as int) =~= self.graph.nodes@);
            },
            _ => {
                assert(self.graph.nodes@.subrange(0, self.graph.nodes@.len() as int) =~= self.graph.nodes@);
            },
        }
    }

    fn apply_edge_to_node_io(&mut self, from: u64, to: u64, label: &str)
        ensures
            old(self).wf() ==> final(self).wf(),
            nodes_kept(old(self).graph.nodes@, final(self).graph.nodes@),
            exists|mid: Seq<NodeInstance>|
                node_io_updated(old(self).graph.nodes@, mid, from, "out"@, label@)
                    && node_io_updated(mid, final(self).graph.nodes@, to, "in"@, label@),
            final(self).label == old(self).label,
            final(self).in_outs == old(self).in_outs,
            final(self).exit == old(self).exit,
            final(self).graph.nodes@.len() == old(self).graph.nodes@.len(),
            final(self).graph.edges@ == old(self).graph.edges@,
            final(self).current_screen == old(self).current_screen,
    {
        let ghost start = self.graph.nodes@;
        update_node_io(&mut self.graph.nodes, from, "out", label);
        let ghost mid = self.graph.nodes@;
        update_node_io(&mut self.graph.nodes, to, "in", label);
        assert(node_io_updated(mid, self.graph.nodes@, to, "in"@, label@));
        proof {
            lemma_io_kept(start, mid, from, "out"@, label@);
            lemma_io_kept(mid, self.graph.nodes@, to, "in"@, label@);
            lemma_kept_trans(start, mid, self.graph.nodes@);
        }
    }

    /// Adds an edge with the typed label between the typed node ids, with
    /// the next edge id, and records its label on both ends.
    pub fn add_edge(&mut self)
        ensures
            old(self).wf() ==> final(self).wf(),
            nodes_kept(old(self).graph.nodes@, final(self).graph.nodes@),
            old(self).graph.edges@.len() < u64::MAX ==> {
                &&& final(self).graph.edges@ == old(self).graph.edges@.push(
                    (Edge {
                        id: (old(self).graph.edges@.len() + 1) as u64,
                        from: old(self).in_outs[0],
                        to: old(self).in_outs[1],
                        label: old(self).label,
                    }),
                )
                &&& exists|mid: Seq<NodeInstance>|
                    node_io_updated(old(self).graph.nodes@, mid, old(self).in_outs[0], "out"@, old(self).label@)
                        && node_io_updated(mid, final(self).graph.nodes@, old(self).in_outs[1], "in"@, old(self).label@)
            },
            old(self).graph.edges@.len() >= u64::MAX ==> final(self).graph == old(self).graph,
            final(self).exit == old(self).exit,
            final(self).graph.nodes@.len() == old(self).graph.nodes@.len(),
            final(self).graph.edges@.len() <= old(self).graph.edges@.len() + 1,
            final(self).graph.edges@.subrange(0, old(self).graph.edges@.len() as int) == old(self).graph.edges@,
            final(self).current_screen == old(self).current_screen,
            final(self).label == old(self).label,
            final(self).in_outs == old(self).in_outs,
    {
        let ghost before = self.graph.edges@;
        let count = self.graph.edges.len() as u64;
        if count == u64::MAX {
            assert(self.graph.edges@.subrange(0, before.len() as int) =~= before);
            return;
        }
        let from = self.in_outs[0];
        let to = self.in_outs[1];
        let label = self.label.clone();
        self.graph.add_edge(Edge { id: count + 1, from, to, label: label.clone() });
        assert(self.graph.edges@.subrange(0, before.len() as int) =~= before);
        self.apply_edge_to_node_io(from, to, label.as_str());
    }

    /// Handles one key press: moves between screens and edits the node or
    /// edge being entered.
    pub fn on_key(&mut self, key: Key)
        ensures
            old(self).wf() ==> final(self).wf(),
            old(self).current_screen == CurrentScreen::Exiting && key != Key::Char('y') && key != Key::Char('n') && key != Key::Char('q') ==> *final(self) == *old(self),
            old(self).current_screen == CurrentScreen::Graph && key != Key::Char('e') && key != Key::Char('E') && key != Key::Char('q') && key != Key::Char('Q') ==> *final(self) == *old(self),
            old(self).current_screen == CurrentScreen::Main && key != Key::Char('g') && key != Key::Char('G') && key != Key::Char('q') && key != Key::Char('Q') ==> *final(self) == *old(self),
            (old(self).current_screen == CurrentScreen::Main || old(self).current_screen == CurrentScreen::Graph || old(self).current_screen == CurrentScreen::Exiting) ==> final(self).graph == old(self).graph,
            final(self).graph.edges@.len() <= old(self).graph.edges@.len() + 1,
            final(self).graph.nodes@.len() <= old(self).graph.nodes@.len() + 1,
            nodes_kept(old(self).graph.nodes@, final(self).graph.nodes@),
            old(self).current_screen == CurrentScreen::Main ==> final(self).current_screen == match key {
                Key::Char(c) => if c == 'g' || c == 'G' {
                    CurrentScreen::Graph
                } else if c == 'q' || c == 'Q' {
                    CurrentScreen::Exiting
                } else {
                    CurrentScreen::Main
                },
                _ => CurrentScreen::Main,
            },
            old(self).current_screen == CurrentScreen::Graph ==> final(self).current_screen == match key {
                Key::Char(c) => if c == 'e' || c == 'E' {
                    CurrentScreen::GraphEditor
                } else if c == 'q' || c == 'Q' {
                    CurrentScreen::Main
                } else {
                    CurrentScreen::Graph
                },
                _ => CurrentScreen::Graph,
            },
            old(self).current_screen == CurrentScreen::Exiting ==> final(self).current_screen == match key {
                Key::Char(c) => if c == 'n' || c == 'q' {
                    CurrentScreen::Main
                } else {
                    CurrentScreen::Exiting
                },
                _ => CurrentScreen::Exiting,
            },
            old(self).current_screen == CurrentScreen::GraphEditor ==> final(self).current_screen == match key {
                Key::Char(c) => if c == 'n' || c == 'N' {
                    CurrentScreen::NodeEditor
                } else if c == 'e' || c == 'E' {
                    CurrentScreen::EdgeEditor
                } else if c == 'q' || c == 'Q' {
                    CurrentScreen::Graph
                } else {
                    CurrentScreen::GraphEditor
                },
                _ => CurrentScreen::GraphEditor,
            },
            (old(self).current_screen == CurrentScreen::NodeEditor || old(self).current_screen
                == CurrentScreen::EdgeEditor) && (key == Key::Esc || key == Key::Char('q') || key
                == Key::Char('Q')) ==> final(self).current_screen == CurrentScreen::GraphEditor
                && final(self).currently_editing is None && final(self).graph == old(self).graph,
            final(self).exit == (old(self).exit || (old(self).current_screen == CurrentScreen::Exiting
                && key == Key::Char('y'))),
            final(self).graph.nodes@.len() >= old(self).graph.nodes@.len(),
            final(self).graph.edges@.subrange(0, old(self).graph.edges@.len() as int) == old(self).graph.edges@,
    {
        let ghost edges0 = self.graph.edges@;
        match self.current_screen {
            CurrentScreen::Main => match key {
                Key::Char('g') | Key::Char('G') => self.current_screen = CurrentScreen::Graph,
                Key::Char('q') | Key::Char('Q') => self.current_screen = CurrentScreen::Exiting,
                _ => {},
            },
            CurrentScreen::Graph => match key {
                Key::Char('e') | Key::Char('E') => self.current_screen = CurrentScreen::GraphEditor,
                Key::Char('q') | Key::Char('Q') => self.current_screen = CurrentScreen::Main,
                _ => {},
            },
            CurrentScreen::GraphEditor => match key {
                Key::Char('n') | Key::Char('N') => self.start_node_editor(),
                Key::Char('e') | Key::Char('E') => {
                    self.label = String::new();
                    self.in_outs = [0, 0];
                    self.currently_editing = Some(CurrentlyEditing::Edge(EdgeEditorMode::Label));
                    self.current_screen = CurrentScreen::EdgeEditor;
                },
                Key::Char('q') | Key::Char('Q') => self.current_screen = CurrentScreen::Graph,
                _ => {},
            },
            CurrentScreen::NodeEditor => self.on_node_editor_key(key),
            CurrentScreen::EdgeEditor => self.on_edge_editor_key(key),
            CurrentScreen::Exiting => match key {
                Key::Char('y') => self.exit = true,
                Key::Char('n') | Key::Char('q') => self.current_screen = CurrentScreen::Main,
                _ => {},
            },
        }
        assert(self.graph.edges@.subrange(0, edges0.len() as int) =~= edges0) by {
            if self.graph.edges@ == edges0 {
                assert(edges0.subrange(0, edges0.len() as int) =~= edges0);
            }
        }
    }

    fn on_node_editor_key(&mut self, key: Key)
        requires
            old(self).current_screen == CurrentScreen::NodeEditor,
        ensures
            old(self).wf() ==> final(self).wf(),
            final(self).graph.edges@ == old(self).graph.edges@,
            final(self).graph.nodes@.len() <= old(self).graph.nodes@.len() + 1,
            nodes_kept(old(self).graph.nodes@, final(self).graph.nodes@),
            (key == Key::Esc || key == Key::Char('q') || key == Key::Char('Q')) ==> final(self).current_screen == CurrentScreen::GraphEditor && final(self).currently_editing is None && final(self).graph == old(self).graph,
            final(self).exit == old(self).exit,
            final(self).current_screen == CurrentScreen::NodeEditor || final(self).current_screen
                == CurrentScreen::GraphEditor,
            final(self).graph.edges@ == old(self).graph.edges@,
            final(self).graph.nodes@.len() >= old(self).graph.nodes@.len(),
    {
        let node_mode = match self.currently_editing {
            Some(CurrentlyEditing::Node(m)) => Some(m),
            _ => None,
        };
        match key {
            Key::Char('q') | Key::Char('Q') | Key::Esc => {
                self.label = String::new();
                self.currently_editing = None;
                self.current_screen = CurrentScreen::GraphEditor;
                self.node_edit = None;
            },
            Key::Enter => {
                if node_mode == Some(NodeEditorMode::Type) {
                    self.select_current_type();
                } else {
                    self.advance_node_editor();
                }
            },
            Key::Up => {
                if node_mode == Some(NodeEditorMode::Type) {
                    self.move_type_selection(-1);
                }
            },
            Key::Down => {
                if node_mode == Some(NodeEditorMode::Type) {
                    self.move_type_selection(1);
                }
            },
            Key::Backspace => match node_mode {
                Some(NodeEditorMode::Label) => pop_char(&mut self.label),
                Some(NodeEditorMode::Param) => {
                    match self.node_edit.take() {
                        Some(edit) => {
                            let mut edit = edit;
                            pop_char(&mut edit.buffer);
                            self.node_edit = Some(edit);
                        },
                        None => {},
                    }
                },
                _ => {},
            },
            Key::Char(c) => match node_mode {
                Some(NodeEditorMode::Label) => push_char(&mut self.label, c),
                Some(NodeEditorMode::Param) => {
                    match self.node_edit.take() {
                        Some(edit) => {
                            let mut edit = edit;
                            push_char(&mut edit.buffer, c);
                            self.node_edit = Some(edit);
                        },
                        None => {},
                    }
                },
                _ => {},
            },
            _ => {},
        }
    }

    fn on_edge_editor_key(&mut self, key: Key)
        requires
            old(self).current_screen == CurrentScreen::EdgeEditor,
        ensures
            old(self).wf() ==> final(self).wf(),
            final(self).graph.edges@.len() <= old(self).graph.edges@.len() + 1,
            nodes_kept(old(self).graph.nodes@, final(self).graph.nodes@),
            (key == Key::Esc || key == Key::Char('q') || key == Key::Char('Q')) ==> final(self).current_screen == CurrentScreen::GraphEditor && final(self).currently_editing is None && final(self).graph == old(self).graph,
            final(self).exit == old(self).exit,
            final(self).current_screen == CurrentScreen::EdgeEditor || final(self).current_screen
                == CurrentScreen::GraphEditor,
            final(self).graph.nodes@.len() == old(self).graph.nodes@.len(),
            final(self).graph.edges@.len() <= old(self).graph.edges@.len() + 1,
            final(self).graph.edges@.subrange(0, old(self).graph.edges@.len() as int) == old(self).graph.edges@,
    {
        let ghost edges0 = self.graph.edges@;
        let edge_mode = match self.currently_editing {
            Some(CurrentlyEditing::Edge(m)) => Some(m),
            _ => None,
        };
        match key {
            Key::Char('q') | Key::Char('Q') | Key::Esc => {
                self.label = String::new();
                self.in_outs = [0, 0];
                self.currently_editing = None;
                self.current_screen = CurrentScreen::GraphEditor;
            },
            Key::Enter => match edge_mode {
                Some(EdgeEditorMode::Label) => {
                    self.currently_editing = Some(CurrentlyEditing::Edge(EdgeEditorMode::InOuts(InOut::From)));
                },
                Some(EdgeEditorMode::InOuts(InOut::From)) => {
                    self.currently_editing = Some(CurrentlyEditing::Edge(EdgeEditorMode::InOuts(InOut::To)));
                },
                Some(EdgeEditorMode::InOuts(InOut::To)) => {
                    self.add_edge();
                    self.label = String::new();
                    self.in_outs = [0, 0];
                    self.currently_editing = None;
                    self.current_screen = CurrentScreen::GraphEditor;
                },
                None => {},
            },
            Key::Tab => match edge_mode {
                Some(EdgeEditorMode::Label) => {
                    self.currently_editing = Some(CurrentlyEditing::Edge(EdgeEditorMode::InOuts(InOut::From)));
                },
                Some(EdgeEditorMode::InOuts(InOut::From)) => {
                    self.currently_editing = Some(CurrentlyEditing::Edge(EdgeEditorMode::InOuts(InOut::To)));
                },
                Some(EdgeEditorMode::InOuts(InOut::To)) => {
                    self.currently_editing = Some(CurrentlyEditing::Edge(EdgeEditorMode::Label));
                },
                None => {},
            },
            Key::Backspace => match edge_mode {
                Some(EdgeEditorMode::Label) => pop_char(&mut self.label),
                Some(EdgeEditorMode::InOuts(InOut::From)) => {
                    self.in_outs = [0, self.in_outs[1]];
                    self.currently_editing = Some(CurrentlyEditing::Edge(EdgeEditorMode::Label));
                },
                Some(EdgeEditorMode::InOuts(InOut::To)) => {
                    self.in_outs = [self.in_outs[0], 0];
                    self.currently_editing = Some(CurrentlyEditing::Edge(EdgeEditorMode::InOuts(InOut::From)));
                },
                None => {},
            },
            Key::Char(c) => match edge_mode {
                Some(EdgeEditorMode::Label) => push_char(&mut self.label, c),
                Some(EdgeEditorMode::InOuts(InOut::From)) => {
                    self.in_outs = [digit_of(c), self.in_outs[1]];
                },
                Some(EdgeEditorMode::InOuts(InOut::To)) => {
                    self.in_outs = [self.in_outs[0], digit_of(c)];
                },
                None => {},
            },
            _ => {},
        }
        assert(self.graph.edges@.subrange(0, edges0.len() as int) =~= edges0) by {
            if self.graph.edges@ == edges0 {
                assert(edges0.subrange(0, edges0.len() as int) =~= edges0);
            }
        }
    }
}

} // verus!
