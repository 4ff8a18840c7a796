use vstd::prelude::*;
use crate::literal::{Literal, LitV, entries_view, keys_unique};

verus! {

/// The kind of value a parameter holds; it picks the parsing rule.
#[derive(Debug, Clone, Copy, PartialEq, Eq, Structural)]
pub enum ParamType {
    String,
    Float,
    Bool,
    List,
    Table,
}

/// The element type a list parameter is checked against.
#[derive(Debug, Clone, Copy, PartialEq, Eq, Structural)]
pub enum ValueType {
    String,
    Float,
    Bool,
    Any,
}

/// How to derive a value that was not entered.
#[derive(Debug, Clone, Copy, PartialEq, Eq, Structural)]
pub enum ParamSource {
    /// The node's label.
    NodeLabel,
    /// The labels of all incoming edges.
    IncomingEdgeLabels,
    /// The labels of all outgoing edges.
    OutgoingEdgeLabels,
    /// The label of the incoming edge at `index` (default 0).
    IncomingEdgeLabel { index: Option<usize> },
    /// The label of the outgoing edge at `index` (default 0).
    OutgoingEdgeLabel { index: Option<usize> },
}

/// How a resolved value is shaped when written out.
#[derive(Debug, Clone, Copy, PartialEq, Eq, Structural)]
pub enum RenderHint {
    /// A list of one is written as its element.
    Scalar,
    /// A value that is not a list is written as a list of one.
    List,
}

/// The declaration of one parameter of a node type.
#[derive(Debug, Clone, Copy, PartialEq, Eq, Structural)]
pub struct ParamDef {
    pub kind: ParamType,
    pub value_type: Option<ValueType>,
    pub len: Option<usize>,
    pub source: Option<ParamSource>,
    pub render: Option<RenderHint>,
}

/// A node type: its parameters, and optionally the key order for output.
#[derive(Debug, Clone)]
pub struct NodeTypeDef {
    pub order: Option<Vec<String>>,
    pub params: Vec<(String, ParamDef)>,
}

#[derive(Debug, Clone)]
pub struct NodeSchema {
    pub type_: String,
    pub params: Vec<(String, ParamDef)>,
}

/// Output format: the root table name and extra top-level tables written
/// as they are.
#[derive(Debug)]
pub struct FormatSpec {
    pub root: String,
    pub tables: Vec<(String, Literal)>,
}

#[derive(Debug, Clone)]
pub struct NodeTypesSection {
    pub types: Vec<(String, NodeTypeDef)>,
}

/// The schema that drives output: node types and an optional format.
#[derive(Debug)]
pub struct NodeTypeCatalog {
    pub format: Option<FormatSpec>,
    pub nodes: NodeTypesSection,
}

#[derive(Debug, Clone, Copy, PartialEq, Eq)]
pub struct TypeInstance {}

/// A node of the graph: id, type name, label and the values entered for it.
#[derive(Debug)]
pub struct NodeInstance {
    pub id: usize,
    pub type_: String,
    pub label: String,
    pub values: Vec<(String, Literal)>,
}

impl NodeInstance {
    pub open spec fn values_view(&self) -> Seq<(Seq<char>, LitV)> {
        entries_view(self.values@)
    }

    /// A valid node has at most one value per key.
    pub open spec fn wf(&self) -> bool {
        keys_unique(self.values_view())
    }

    pub fn new(id: usize, type_: String, label: String) -> (r: Self)
        ensures
            r.id == id,
            r.type_ == type_,
            r.label == label,
            r.values@.len() == 0,
            r.wf(),
    {
        NodeInstance { id, type_, label, values: Vec::new() }
    }
}

/// No two entries of a list share a name.
pub open spec fn names_unique<T>(es: Seq<(String, T)>) -> bool {
    forall|i: int, j: int| 0 <= i < j < es.len() ==> es[i].0@ != es[j].0@
}

impl NodeTypeCatalog {
    /// A valid catalog names each type, each parameter of a type and each
    /// extra table once.
    pub open spec fn wf(&self) -> bool {
        &&& names_unique(self.nodes.types@)
        &&& forall|i: int| 0 <= i < self.nodes.types@.len() ==> names_unique(#[trigger] self.nodes.types@[i].1.params@)
        &&& self.format matches Some(f) ==> keys_unique(entries_view(f.tables@))
    }
}

/// The definition registered under `name` (the first one), if any.
pub open spec fn type_lookup(types: Seq<(String, NodeTypeDef)>, name: Seq<char>) -> Option<
    NodeTypeDef,
>
    decreases types.len(),
{
    if types.len() == 0 {
        None
    } else if types[0].0@ == name {
        Some(types[0].1)
    } else {
        type_lookup(types.drop_first(), name)
    }
}

impl NodeTypesSection {
    pub fn get(&self, name: &String) -> (r: Option<&NodeTypeDef>)
        ensures
            match type_lookup(self.types@, name@) {
                Some(d) => r == Some(&d),
                None => r is None,
            },
    {
        let mut i: usize = 0;
        assert(self.types@.subrange(0, self.types@.len() as int) =~= self.types@);
        while i < self.types.len()
            invariant
                i <= self.types.len(),
                type_lookup(self.types@, name@) == type_lookup(
                    self.types@.subrange(i as int, self.types@.len() as int),
                    name@,
                ),
            decreases self.types.len() - i,
        {
            let ghost rest = self.types@.subrange(i as int, self.types@.len() as int);
            assert(rest.drop_first() =~= self.types@.subrange(i + 1, self.types@.len() as int));
            if self.types[i].0 == *name {
                return Some(&self.types[i].1);
            }
            i = i + 1;
        }
        None
    }
}

impl NodeTypeCatalog {
    /// The name of the table that holds the node arrays.
    pub open spec fn root_key(&self) -> Seq<char> {
        match self.format {
            Some(f) => f.root@,
            None => "units"@,
        }
    }
}

} // verus!
