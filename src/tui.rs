use vstd::prelude::*;
use crate::node_builder::{ParamDef, ParamType};

verus! {

/// The terminal front end; the drawing and event loop live with the
/// program, which owns the terminal.
#[derive(Debug, Clone, Copy, PartialEq, Eq, Structural)]
pub struct Tui;

impl Tui {
    pub fn new() -> (r: Self)
        ensures
            r == Tui,
    {
        Tui
    }
}

/// The input format shown for a parameter of this kind.
pub open spec fn format_hint(kind: ParamType) -> Seq<char> {
    match kind {
        ParamType::String => "text"@,
        ParamType::Float => "number (e.g. 1.23)"@,
        ParamType::Bool => "true/false"@,
        ParamType::List => "comma or space separated"@,
        ParamType::Table => "inline table (e.g. x = 1, y = 2) or two numbers"@,
    }
}

/// A hint on how to type a value for the parameter, if there is one.
pub fn param_format_hint(def: Option<&ParamDef>) -> (r: Option<&'static str>)
    ensures
        match def {
            Some(d) => r matches Some(h) && h@ == format_hint(d.kind),
            None => r is None,
        },
{
    let d = match def {
        Some(d) => d,
        None => return None,
    };
    match d.kind {
        ParamType::String => Some("text"),
        ParamType::Float => Some("number (e.g. 1.23)"),
        ParamType::Bool => Some("true/false"),
        ParamType::List => Some("comma or space separated"),
        ParamType::Table => Some("inline table (e.g. x = 1, y = 2) or two numbers"),
    }
}

} // verus!
