use vstd::prelude::*;

verus! {

/// A labelled edge between two node ids. Its endpoints need not exist.
#[derive(Debug, Clone)]
pub struct Edge {
    pub id: u64,
    pub from: u64,
    pub to: u64,
    pub label: String,
}

} // verus!
