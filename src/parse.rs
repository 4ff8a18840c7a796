use vstd::prelude::*;
use crate::literal::{Literal, LitV, items_view, entries_view, table_get, lemma_list_view, lemma_table_view, take_entry};
use crate::node_builder::{ParamDef, ParamType, ValueType};
use crate::text::{trim, split_on, ws_tokens, string_views, chars_of, string_of, trim_chars, split_chars, whitespace_tokens, contains_char, char_views, str_eq, sub_chars};
use crate::toml_bridge::{toml_parse, float_text, parse_document, parse_float_text};

verus! {

/// Why a typed value could not be read from text.
#[derive(Debug, PartialEq)]
pub enum ParseError {
    ExpectedFloat,
    ExpectedBool,
    ExpectedList,
    ExpectedListLength(usize),
    ListTypeMismatch,
    /// Text that is no TOML literal of the expected shape; toml's message.
    Malformed(String),
}

/// The kind of a `ParseError`, without toml's message.
pub enum ParseFailure {
    ExpectedFloat,
    ExpectedBool,
    ExpectedList,
    ExpectedListLength(nat),
    ListTypeMismatch,
    Malformed,
}

impl ParseError {
    pub open spec fn failure(&self) -> ParseFailure {
        match self {
            ParseError::ExpectedFloat => ParseFailure::ExpectedFloat,
            ParseError::ExpectedBool => ParseFailure::ExpectedBool,
            ParseError::ExpectedList => ParseFailure::ExpectedList,
            ParseError::ExpectedListLength(n) => ParseFailure::ExpectedListLength(*n as nat),
            ParseError::ListTypeMismatch => ParseFailure::ListTypeMismatch,
            ParseError::Malformed(_) => ParseFailure::Malformed,
        }
    }
}

/// The model of a parse result.
pub open spec fn outcome(r: Result<Literal, ParseError>) -> Result<LitV, ParseFailure> {
    match r {
        Ok(v) => Ok(v@),
        Err(e) => Err(e.failure()),
    }
}

/// The pieces a list is split into: at commas, trimmed and without empty
/// pieces, when there is a comma; else at white space.
pub open spec fn list_parts(raw: Seq<char>) -> Seq<Seq<char>> {
    if raw.contains(',') {
        trimmed_pieces(split_on(raw, ','))
    } else {
        ws_tokens(raw)
    }
}

pub open spec fn trimmed_pieces(parts: Seq<Seq<char>>) -> Seq<Seq<char>>
    decreases parts.len(),
{
    if parts.len() == 0 {
        Seq::empty()
    } else {
        let rest = trimmed_pieces(parts.drop_last());
        let t = trim(parts.last());
        if t.len() > 0 {
            rest.push(t)
        } else {
            rest
        }
    }
}

/// The trimmed text, without one pair of enclosing double quotes.
pub open spec fn unquoted(raw: Seq<char>) -> Seq<char> {
    let t = trim(raw);
    if t.len() >= 2 && t[0] == '"' && t.last() == '"' {
        t.subrange(1, t.len() - 1)
    } else {
        t
    }
}

/// The value toml reads from the text as the right-hand side of an entry.
pub open spec fn toml_value_of(raw: Seq<char>) -> Option<LitV> {
    match toml_parse("value = "@ + raw) {
        Some(LitV::Table(es)) => table_get(es, "value"@),
        _ => None,
    }
}

pub open spec fn float_spec(raw: Seq<char>) -> Result<LitV, ParseFailure> {
    match float_text(raw) {
        Some(t) => Ok(LitV::Float(t)),
        None => Err(ParseFailure::ExpectedFloat),
    }
}

pub open spec fn bool_spec(raw: Seq<char>) -> Result<LitV, ParseFailure> {
    if raw == "true"@ {
        Ok(LitV::Bool(true))
    } else if raw == "false"@ {
        Ok(LitV::Bool(false))
    } else {
        Err(ParseFailure::ExpectedBool)
    }
}

/// One element of a list typed as free text.
pub open spec fn list_entry_spec(raw: Seq<char>, vt: Option<ValueType>) -> Result<LitV, ParseFailure> {
    match vt {
        Some(ValueType::String) => Ok(LitV::Str(unquoted(raw))),
        Some(ValueType::Float) => float_spec(raw),
        Some(ValueType::Bool) => bool_spec(raw),
        _ => match toml_value_of(raw) {
            Some(v) => Ok(v),
            None => Ok(LitV::Str(unquoted(raw))),
        },
    }
}

/// The elements read from `parts`, or the error of the first that fails.
pub open spec fn list_entries_spec(parts: Seq<Seq<char>>, vt: Option<ValueType>) -> Result<
    Seq<LitV>,
    ParseFailure,
>
    decreases parts.len(),
{
    if parts.len() == 0 {
        Ok(Seq::empty())
    } else {
        match list_entries_spec(parts.drop_last(), vt) {
            Err(e) => Err(e),
            Ok(vs) => match list_entry_spec(parts.last(), vt) {
                Ok(v) => Ok(vs.push(v)),
                Err(e) => Err(e),
            },
        }
    }
}

pub open spec fn list_from_raw_spec(raw: Seq<char>, vt: Option<ValueType>) -> Result<LitV, ParseFailure> {
    let parts = list_parts(raw);
    if parts.len() == 0 {
        Err(ParseFailure::ExpectedList)
    } else {
        match list_entries_spec(parts, vt) {
            Ok(vs) => Ok(LitV::List(vs)),
            Err(e) => Err(e),
        }
    }
}

pub open spec fn fits_value_type(x: LitV, vt: ValueType) -> bool {
    match vt {
        ValueType::String => x is Str,
        ValueType::Float => x is Float || x is Int,
        ValueType::Bool => x is Bool,
        ValueType::Any => true,
    }
}

pub open spec fn all_fit(items: Seq<LitV>, t: ValueType) -> bool {
    forall|i: int| 0 <= i < items.len() ==> fits_value_type(#[trigger] items[i], t)
}

pub open spec fn validate_spec(v: LitV, vt: Option<ValueType>) -> Result<(), ParseFailure> {
    match vt {
        None => Ok(()),
        Some(ValueType::Any) => Ok(()),
        Some(t) => match v {
            LitV::List(items) => if all_fit(items, t) {
                Ok(())
            } else {
                Err(ParseFailure::ListTypeMismatch)
            },
            _ => Err(ParseFailure::ExpectedList),
        },
    }
}

pub open spec fn list_spec(raw: Seq<char>, def: ParamDef) -> Result<LitV, ParseFailure> {
    let value = match toml_value_of(raw) {
        Some(v) => if v is List {
            Ok(v)
        } else {
            list_from_raw_spec(raw, def.value_type)
        },
        None => list_from_raw_spec(raw, def.value_type),
    };
    match value {
        Err(e) => Err(e),
        Ok(v) => {
            let n: nat = match v {
                LitV::List(items) => items.len(),
                _ => 0,
            };
            if def.len is Some && n != def.len->0 {
                Err(ParseFailure::ExpectedListLength(def.len->0 as nat))
            } else {
                match validate_spec(v, def.value_type) {
                    Ok(_) => Ok(v),
                    Err(e) => Err(e),
                }
            }
        },
    }
}

/// Two numbers read as the point `{ x, y }`, for a table of floats.
pub open spec fn xy_spec(raw: Seq<char>, def: ParamDef) -> Option<LitV> {
    let parts = list_parts(raw);
    if def.value_type == Some(ValueType::Float) && parts.len() == 2 && float_text(parts[0]) is Some
        && float_text(parts[1]) is Some {
        Some(
            LitV::Table(
                seq![("x"@, LitV::Float(float_text(parts[0])->0)), ("y"@, LitV::Float(float_text(parts[1])->0))],
            ),
        )
    } else {
        None
    }
}

pub open spec fn braced(t: Seq<char>) -> bool {
    t.len() > 0 && t[0] == '{' && t.last() == '}'
}

pub open spec fn table_from_raw_spec(raw: Seq<char>, def: ParamDef) -> Result<LitV, ParseFailure> {
    let t = trim(raw);
    match xy_spec(t, def) {
        Some(v) => Ok(v),
        None => {
            let doc = if braced(t) {
                "value = "@ + t
            } else {
                "value = { "@ + t + " }"@
            };
            match toml_parse(doc) {
                Some(LitV::Table(es)) => match table_get(es, "value"@) {
                    Some(v) => Ok(v),
                    None => Err(ParseFailure::Malformed),
                },
                _ => Err(ParseFailure::Malformed),
            }
        },
    }
}

pub open spec fn table_spec(raw: Seq<char>, def: ParamDef) -> Result<LitV, ParseFailure> {
    match toml_value_of(raw) {
        Some(v) => if v is Table {
            Ok(v)
        } else {
            table_from_raw_spec(raw, def)
        },
        None => table_from_raw_spec(raw, def),
    }
}

/// The typed value that free text denotes for a parameter.
pub open spec fn parse_spec(raw: Seq<char>, def: ParamDef) -> Result<LitV, ParseFailure> {
    match def.kind {
        ParamType::String => Ok(LitV::Str(raw)),
        ParamType::Float => float_spec(raw),
        ParamType::Bool => bool_spec(raw),
        ParamType::List => list_spec(raw, def),
        ParamType::Table => table_spec(raw, def),
    }
}

pub proof fn lemma_entries_error_stays(parts: Seq<Seq<char>>, vt: Option<ValueType>, i: int)
    requires
        0 <= i <= parts.len(),
        list_entries_spec(parts.subrange(0, i), vt) is Err,
    ensures
        list_entries_spec(parts, vt) == list_entries_spec(parts.subrange(0, i), vt),
    decreases parts.len() - i,
{
    if i == parts.len() {
        assert(parts.subrange(0, i) =~= parts);
    } else {
        assert(parts.drop_last().subrange(0, i) =~= parts.subrange(0, i));
        lemma_entries_error_stays(parts.drop_last(), vt, i);
    }
}

/// The pieces of a list typed as free text: split at commas (trimmed,
/// empty pieces dropped) when there is a comma, else at white space.
#[verifier::loop_isolation(false)]
pub fn split_list_parts(raw: &str) -> (r: Vec<String>)
    ensures
        string_views(r@) == list_parts(raw@),
{
    let cs = chars_of(raw);
    let pieces = if contains_char(&cs, ',') {
        let ps = split_chars(&cs, ',');
        let mut out: Vec<Vec<char>> = Vec::new();
        let mut i: usize = 0;
        while i < ps.len()
            invariant
                i <= ps.len(),
                char_views(out@) == trimmed_pieces(char_views(ps@).subrange(0, i as int)),
            decreases ps.len() - i,
        {
            let ghost next = char_views(ps@).subrange(0, i + 1);
            assert(next.drop_last() =~= char_views(ps@).subrange(0, i as int));
            let t = trim_chars(&ps[i]);
            if t.len() > 0 {
                let ghost before = out@;
                out.push(t);
                assert(char_views(out@) =~= char_views(before).push(t@));
            }
            i = i + 1;
        }
        assert(char_views(ps@).subrange(0, ps.len() as int) =~= char_views(ps@));
        out
    } else {
        whitespace_tokens(&cs)
    };
    let mut r: Vec<String> = Vec::new();
    let mut j: usize = 0;
    while j < pieces.len()
        invariant
            j <= pieces.len(),
            string_views(r@) == char_views(pieces@).subrange(0, j as int),
        decreases pieces.len() - j,
    {
        let s = string_of(pieces[j].as_slice());
        assert(s@ == char_views(pieces@)[j as int]);
        let ghost before = r@;
        r.push(s);
        assert(string_views(r@) =~= string_views(before).push(s@));
        assert(string_views(r@) =~= char_views(pieces@).subrange(0, j + 1));
        j = j + 1;
    }
    assert(char_views(pieces@).subrange(0, pieces.len() as int) =~= char_views(pieces@));
    r
}

/// The trimmed text without one pair of enclosing double quotes.
pub fn unquote(raw: &str) -> (r: String)
    ensures
        r@ == unquoted(raw@),
{
    let cs = chars_of(raw);
    let t = trim_chars(&cs);
    let n = t.len();
    if n >= 2 && t[0] == '"' && t[n - 1] == '"' {
        let inner = sub_chars(&t, 1, n - 1);
        string_of(inner.as_slice())
    } else {
        string_of(t.as_slice())
    }
}

/// Reads `raw` as the right-hand side of a TOML entry.
pub fn parse_toml_value(raw: &str) -> (r: Result<Literal, ParseError>)
    ensures
        outcome(r) == match toml_value_of(raw@) {
            Some(v) => Ok(v),
            None => Err(ParseFailure::Malformed),
        },
{
    let mut doc = String::from_str("value = ");
    doc.append(raw);
    read_value_entry(&doc)
}

/// Reads the document `doc` and takes its entry `value`.
fn read_value_entry(doc: &String) -> (r: Result<Literal, ParseError>)
    ensures
        outcome(r) == match toml_parse(doc@) {
            Some(LitV::Table(es)) => match table_get(es, "value"@) {
                Some(v) => Ok(v),
                None => Err(ParseFailure::Malformed),
            },
            _ => Err(ParseFailure::Malformed),
        },
{
    match parse_document(doc.as_str()) {
        Ok(Literal::Table(entries)) => {
            proof { lemma_table_view(entries); }
            let key = String::from_str("value");
            match take_entry(entries, &key) {
                Some(v) => Ok(v),
                None => Err(ParseError::Malformed(String::from_str("missing value"))),
            }
        },
        Ok(_) => Err(ParseError::Malformed(String::from_str("missing value"))),
        Err(msg) => Err(ParseError::Malformed(msg)),
    }
}

fn parse_float(raw: &str) -> (r: Result<Literal, ParseError>)
    ensures
        outcome(r) == float_spec(raw@),
{
    match parse_float_text(raw) {
        Some(t) => Ok(Literal::Float(t)),
        None => Err(ParseError::ExpectedFloat),
    }
}

fn parse_bool(raw: &str) -> (r: Result<Literal, ParseError>)
    ensures
        outcome(r) == bool_spec(raw@),
{
    if str_eq(raw, "true") {
        Ok(Literal::Bool(true))
    } else if str_eq(raw, "false") {
        Ok(Literal::Bool(false))
    } else {
        Err(ParseError::ExpectedBool)
    }
}

/// Reads one element of a list typed as free text.
pub fn parse_list_entry(raw: &str, value_type: Option<ValueType>) -> (r: Result<Literal, ParseError>)
    ensures
        outcome(r) == list_entry_spec(raw@, value_type),
{
    match value_type {
        Some(ValueType::String) => Ok(Literal::Str(unquote(raw))),
        Some(ValueType::Float) => parse_float(raw),
        Some(ValueType::Bool) => parse_bool(raw),
        _ => match parse_toml_value(raw) {
            Ok(v) => Ok(v),
            Err(_) => Ok(Literal::Str(unquote(raw))),
        },
    }
}

/// Reads a list from free text by splitting it into pieces.
#[verifier::loop_isolation(false)]
pub fn parse_list_from_raw(raw: &str, def: &ParamDef) -> (r: Result<Literal, ParseError>)
    ensures
        outcome(r) == list_from_raw_spec(raw@, def.value_type),
{
    let parts = split_list_parts(raw);
    if parts.len() == 0 {
        return Err(ParseError::ExpectedList);
    }
    let ghost views = string_views(parts@);
    let mut values: Vec<Literal> = Vec::new();
    let mut i: usize = 0;
    assert(views.subrange(0, 0) =~= Seq::<Seq<char>>::empty());
    assert(items_view(values@) =~= Seq::<LitV>::empty());
    while i < parts.len()
        invariant
            i <= parts.len(),
            views == string_views(parts@),
            list_entries_spec(views.subrange(0, i as int), def.value_type) == Ok::<Seq<LitV>, ParseFailure>(items_view(values@)),
        decreases parts.len() - i,
    {
        let ghost next = views.subrange(0, i + 1);
        assert(next.drop_last() =~= views.subrange(0, i as int));
        assert(next.last() == parts@[i as int]@);
        match parse_list_entry(parts[i].as_str(), def.value_type) {
            Ok(v) => {
                let ghost before = values@;
                values.push(v);
                assert(items_view(values@) =~= items_view(before).push(values@.last()@));
            },
            Err(e) => {
                assert(list_entries_spec(next, def.value_type) == Err::<Seq<LitV>, ParseFailure>(e.failure()));
                proof { lemma_entries_error_stays(views, def.value_type, i + 1); }
                return Err(e);
            },
        }
        i = i + 1;
    }
    assert(views.subrange(0, parts.len() as int) =~= views);
    proof { lemma_list_view(values); }
    Ok(Literal::List(values))
}

fn fits(x: &Literal, vt: ValueType) -> (r: bool)
    ensures
        r == fits_value_type(x@, vt),
{
    match vt {
        ValueType::String => matches!(x, Literal::Str(_)),
        ValueType::Float => matches!(x, Literal::Float(_)) || matches!(x, Literal::Int(_)),
        ValueType::Bool => matches!(x, Literal::Bool(_)),
        ValueType::Any => true,
    }
}

/// Checks the elements of a list against the declared element type.
pub fn validate_value_type(value: &Literal, value_type: Option<ValueType>) -> (r: Result<(), ParseError>)
    ensures
        match validate_spec(value@, value_type) {
            Ok(_) => r is Ok,
            Err(f) => r matches Err(e) && e.failure() == f,
        },
{
    let t = match value_type {
        None => return Ok(()),
        Some(ValueType::Any) => return Ok(()),
        Some(t) => t,
    };
    match value {
        Literal::List(items) => {
            proof { lemma_list_view(*items); }
            let ghost xs = items_view(items@);
            assert(value@ == LitV::List(xs));
            let mut i: usize = 0;
            while i < items.len()
                invariant
                    i <= items.len(),
                    xs == items_view(items@),
                    value@ == LitV::List(xs),
                    value_type == Some(t),
                    t != ValueType::Any,
                    forall|k: int| 0 <= k < i ==> fits_value_type(#[trigger] xs[k], t),
                decreases items.len() - i,
            {
                if !fits(&items[i], t) {
                    assert(!fits_value_type(xs[i as int], t));
                    assert(!all_fit(xs, t));
                    return Err(ParseError::ListTypeMismatch);
                }
                i = i + 1;
            }
            Ok(())
        },
        _ => Err(ParseError::ExpectedList),
    }
}

/// Reads two numbers as the point `{ x, y }`, for a table of floats.
#[verifier::loop_isolation(false)]
pub fn parse_xy_table(raw: &str, def: &ParamDef) -> (r: Option<Literal>)
    ensures
        match xy_spec(raw@, *def) {
            Some(v) => r matches Some(l) && l@ == v,
            None => r is None,
        },
{
    match def.value_type {
        Some(ValueType::Float) => {},
        _ => return None,
    }
    let parts = split_list_parts(raw);
    if parts.len() != 2 {
        return None;
    }
    assert(string_views(parts@)[0] == parts@[0]@);
    assert(string_views(parts@)[1] == parts@[1]@);
    let x = match parse_float_text(parts[0].as_str()) {
        Some(x) => x,
        None => return None,
    };
    let y = match parse_float_text(parts[1].as_str()) {
        Some(y) => y,
        None => return None,
    };
    let ghost xv = x@;
    let ghost yv = y@;
    let mut table: Vec<(String, Literal)> = Vec::new();
    table.push((String::from_str("x"), Literal::Float(x)));
    table.push((String::from_str("y"), Literal::Float(y)));
    proof { lemma_table_view(table); }
    assert(entries_view(table@) =~= seq![("x"@, LitV::Float(xv)), ("y"@, LitV::Float(yv))]);
    Some(Literal::Table(table))
}

/// Reads a table from free text: the point shorthand, else an inline
/// table, with braces added when the text has none.
pub fn parse_table_from_raw(raw: &str, def: &ParamDef) -> (r: Result<Literal, ParseError>)
    ensures
        outcome(r) == table_from_raw_spec(raw@, *def),
{
    let cs = chars_of(raw);
    let tc = trim_chars(&cs);
    let t = string_of(tc.as_slice());
    match parse_xy_table(t.as_str(), def) {
        Some(table) => return Ok(table),
        None => {},
    }
    let n = tc.len();
    let doc = if n > 0 && tc[0] == '{' && tc[n - 1] == '}' {
        let mut d = String::from_str("value = ");
        d.append(t.as_str());
        d
    } else {
        let mut d = String::from_str("value = { ");
        d.append(t.as_str());
        d.append(" }");
        d
    };
    read_value_entry(&doc)
}

/// Reads the typed value that free text denotes for a parameter.
pub fn parse_param_value(raw: &str, def: &ParamDef) -> (r: Result<Literal, ParseError>)
    ensures
        outcome(r) == parse_spec(raw@, *def),
{
    match def.kind {
        ParamType::String => Ok(Literal::Str(String::from_str(raw))),
        ParamType::Float => parse_float(raw),
        ParamType::Bool => parse_bool(raw),
        ParamType::List => {
            let read = parse_toml_value(raw);
            let value = match read {
                Ok(Literal::List(items)) => Literal::List(items),
                _ => match parse_list_from_raw(raw, def) {
                    Ok(v) => v,
                    Err(e) => return Err(e),
                },
            };
            match def.len {
                Some(expected) => {
                    let n: usize = match &value {
                        Literal::List(items) => {
                            proof { lemma_list_view(*items); }
                            items.len()
                        },
                        _ => 0,
                    };
                    if n != expected {
                        return Err(ParseError::ExpectedListLength(expected));
                    }
                },
                None => {},
            }
            match validate_value_type(&value, def.value_type) {
                Ok(()) => Ok(value),
                Err(e) => Err(e),
            }
        },
        ParamType::Table => {
            let read = parse_toml_value(raw);
            match read {
                Ok(Literal::Table(entries)) => Ok(Literal::Table(entries)),
                _ => parse_table_from_raw(raw, def),
            }
        },
    }
}

} // verus!
