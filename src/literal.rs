use vstd::prelude::*;

verus! {

/// A typed literal value: the tagged union that parameters hold and that
/// documents are built from.
///
/// Floats and datetimes are carried as the TOML literal text that the toml
/// crate writes for them; the library never computes with them.
#[derive(Debug, PartialEq)]
pub enum Literal {
    Str(String),
    Int(i64),
    Float(String),
    Bool(bool),
    Datetime(String),
    List(Vec<Literal>),
    Table(Vec<(String, Literal)>),
}

/// The mathematical model of a `Literal`.
pub enum LitV {
    Str(Seq<char>),
    Int(int),
    Float(Seq<char>),
    Bool(bool),
    Datetime(Seq<char>),
    List(Seq<LitV>),
    Table(Seq<(Seq<char>, LitV)>),
}

impl View for Literal {
    type V = LitV;

    open spec fn view(&self) -> LitV {
        lit_view(self)
    }
}

pub open spec fn lit_view(l: &Literal) -> LitV
    decreases l,
{
    match l {
        Literal::Str(s) => LitV::Str(s@),
        Literal::Int(i) => LitV::Int(*i as int),
        Literal::Float(t) => LitV::Float(t@),
        Literal::Bool(b) => LitV::Bool(*b),
        Literal::Datetime(t) => LitV::Datetime(t@),
        Literal::List(items) => LitV::List(
            Seq::new(
                items@.len(),
                |i: int|
                    if 0 <= i < items@.len() {
                        lit_view(&items@[i])
                    } else {
                        LitV::Bool(false)
                    },
            ),
        ),
        Literal::Table(entries) => LitV::Table(
            Seq::new(
                entries@.len(),
                |i: int|
                    if 0 <= i < entries@.len() {
                        (entries@[i].0@, lit_view(&entries@[i].1))
                    } else {
                        (Seq::empty(), LitV::Bool(false))
                    },
            ),
        ),
    }
}

pub open spec fn items_view(items: Seq<Literal>) -> Seq<LitV> {
    items.map_values(|l: Literal| l@)
}

pub open spec fn entries_view(entries: Seq<(String, Literal)>) -> Seq<(Seq<char>, LitV)> {
    entries.map_values(|e: (String, Literal)| (e.0@, e.1@))
}

pub proof fn lemma_list_view(items: Vec<Literal>)
    ensures
        Literal::List(items)@ == LitV::List(items_view(items@)),
{
    let v = Literal::List(items)@;
    assert(v->List_0 =~= items_view(items@));
}

pub proof fn lemma_table_view(entries: Vec<(String, Literal)>)
    ensures
        Literal::Table(entries)@ == LitV::Table(entries_view(entries@)),
{
    let v = Literal::Table(entries)@;
    assert(v->Table_0 =~= entries_view(entries@));
}

/// The value stored under `key` (the first entry with that key).
pub open spec fn table_get(entries: Seq<(Seq<char>, LitV)>, key: Seq<char>) -> Option<LitV>
    decreases entries.len(),
{
    if entries.len() == 0 {
        None
    } else if entries[0].0 == key {
        Some(entries[0].1)
    } else {
        table_get(entries.drop_first(), key)
    }
}

/// The index of the first entry with `key`, if any.
pub open spec fn key_index(entries: Seq<(Seq<char>, LitV)>, key: Seq<char>) -> Option<int>
    decreases entries.len(),
{
    if entries.len() == 0 {
        None
    } else if entries[0].0 == key {
        Some(0)
    } else {
        match key_index(entries.drop_first(), key) {
            Some(i) => Some(i + 1),
            None => None,
        }
    }
}

/// `entries` with `key` bound to `v`: the first entry with that key is
/// replaced in place, or a new entry is appended.
pub open spec fn table_insert(entries: Seq<(Seq<char>, LitV)>, key: Seq<char>, v: LitV) -> Seq<
    (Seq<char>, LitV),
> {
    match key_index(entries, key) {
        Some(i) => entries.update(i, (key, v)),
        None => entries.push((key, v)),
    }
}

pub proof fn lemma_key_index(entries: Seq<(Seq<char>, LitV)>, key: Seq<char>)
    ensures
        key_index(entries, key) matches Some(i) ==> 0 <= i < entries.len() && entries[i].0 == key
            && forall|j: int| 0 <= j < i ==> entries[j].0 != key,
        key_index(entries, key) is None ==> forall|j: int|
            0 <= j < entries.len() ==> entries[j].0 != key,
    decreases entries.len(),
{
    if entries.len() > 0 {
        let rest = entries.drop_first();
        lemma_key_index(rest, key);
        assert forall|j: int| 1 <= j < entries.len() implies entries[j] == rest[j - 1] by {}
    }
}

pub fn key_position(entries: &Vec<(String, Literal)>, key: &String) -> (r: Option<usize>)
    ensures
        match key_index(entries_view(entries@), key@) {
            Some(i) => r == Some(i as usize),
            None => r is None,
        },
        r matches Some(i) ==> i < entries@.len() && entries_view(entries@)[i as int].0 == key@
            && forall|j: int| 0 <= j < i ==> entries_view(entries@)[j].0 != key@,
{
    let ghost ev = entries_view(entries@);
    proof { lemma_key_index(ev, key@); }
    let mut i: usize = 0;
    while i < entries.len()
        invariant
            i <= entries.len(),
            ev == entries_view(entries@),
            forall|j: int| 0 <= j < i ==> ev[j].0 != key@,
        decreases entries.len() - i,
    {
        if entries[i].0 == *key {
            assert(ev[i as int].0 == key@);
            proof {
                lemma_key_index(ev, key@);
            }
            return Some(i);
        }
        i = i + 1;
    }
    None
}

/// No two entries share a key: the validity of a table.
pub open spec fn keys_unique(es: Seq<(Seq<char>, LitV)>) -> bool {
    forall|i: int, j: int| 0 <= i < j < es.len() ==> es[i].0 != es[j].0
}

/// Binding a key keeps the keys of a valid table distinct.
pub proof fn lemma_insert_keeps_unique(es: Seq<(Seq<char>, LitV)>, key: Seq<char>, v: LitV)
    requires
        keys_unique(es),
    ensures
        keys_unique(table_insert(es, key, v)),
{
    lemma_key_index(es, key);
    let r = table_insert(es, key, v);
    match key_index(es, key) {
        Some(i) => {
            assert forall|a: int, b: int| 0 <= a < b < r.len() implies r[a].0 != r[b].0 by {
                assert(r[a].0 == es[a].0);
                assert(r[b].0 == es[b].0);
            }
        },
        None => {
            assert forall|a: int, b: int| 0 <= a < b < r.len() implies r[a].0 != r[b].0 by {
                if b < es.len() {
                    assert(r[a] == es[a]);
                    assert(r[b] == es[b]);
                } else {
                    assert(r[a] == es[a]);
                }
            }
        },
    }
}

pub fn table_insert_entry(entries: &mut Vec<(String, Literal)>, key: String, v: Literal)
    ensures
        entries_view(final(entries)@) == table_insert(entries_view(old(entries)@), key@, v@),
        keys_unique(entries_view(old(entries)@)) ==> keys_unique(entries_view(final(entries)@)),
{
    proof { if keys_unique(entries_view(entries@)) { lemma_insert_keeps_unique(entries_view(entries@), key@, v@); } }
    let ghost kv = key@;
    proof { lemma_key_index(entries_view(entries@), kv); }
    match key_position(entries, &key) {
        Some(i) => {
            entries.set(i, (key, v));
            assert(entries_view(final(entries)@) =~= table_insert(entries_view(old(entries)@), kv, v@));
        },
        None => {
            entries.push((key, v));
            assert(entries_view(final(entries)@) =~= table_insert(entries_view(old(entries)@), kv, v@));
        },
    }
}

pub proof fn lemma_table_get_index(entries: Seq<(Seq<char>, LitV)>, key: Seq<char>)
    ensures
        table_get(entries, key) == match key_index(entries, key) {
            Some(i) => Some(entries[i].1),
            None => None,
        },
    decreases entries.len(),
{
    if entries.len() > 0 && entries[0].0 != key {
        let rest = entries.drop_first();
        lemma_table_get_index(rest, key);
        match key_index(rest, key) {
            Some(i) => {
                lemma_key_index(rest, key);
                assert(rest[i] == entries[i + 1]);
            },
            None => {},
        }
    }
}

/// Takes the value stored under `key` out of a table.
pub fn take_entry(entries: Vec<(String, Literal)>, key: &String) -> (r: Option<Literal>)
    ensures
        match table_get(entries_view(entries@), key@) {
            Some(v) => r matches Some(l) && l@ == v,
            None => r is None,
        },
{
    let ghost ev = entries_view(entries@);
    proof {
        lemma_table_get_index(ev, key@);
        lemma_key_index(ev, key@);
    }
    let mut entries = entries;
    match key_position(&entries, key) {
        Some(i) => {
            let e = entries.remove(i);
            Some(e.1)
        },
        None => None,
    }
}

/// A copy of the value stored under `key`.
pub fn get_entry(entries: &Vec<(String, Literal)>, key: &String) -> (r: Option<Literal>)
    ensures
        match table_get(entries_view(entries@), key@) {
            Some(v) => r matches Some(l) && l@ == v,
            None => r is None,
        },
{
    let ghost ev = entries_view(entries@);
    proof {
        lemma_table_get_index(ev, key@);
        lemma_key_index(ev, key@);
    }
    match key_position(entries, key) {
        Some(i) => {
            assert(ev[i as int].0 == key@);
            assert(key_index(ev, key@) == Some(i as int));
            assert(ev[i as int].1 == entries@[i as int].1@);
            let c = entries[i].1.duplicate();
            assert(c@ == ev[i as int].1);
            Some(c)
        },
        None => None,
    }
}

impl Literal {
    /// A copy of this value, equal to it in every part.
    #[verifier::loop_isolation(false)]
    pub fn duplicate(&self) -> (r: Literal)
        ensures
            r@ == self@,
        decreases self,
    {
        match self {
            Literal::Str(s) => Literal::Str(s.clone()),
            Literal::Int(i) => Literal::Int(*i),
            Literal::Float(t) => Literal::Float(t.clone()),
            Literal::Bool(b) => Literal::Bool(*b),
            Literal::Datetime(t) => Literal::Datetime(t.clone()),
            Literal::List(items) => {
                let mut out: Vec<Literal> = Vec::new();
                let mut i: usize = 0;
                while i < items.len()
                    invariant
                        i <= items.len(),
                        items_view(out@) == items_view(items@).subrange(0, i as int),
                    decreases items.len() - i,
                {
                    proof {
                        assert(decreases_to!(*items => items[i as int]));
                    }
                    let c = items[i].duplicate();
                    assert(c@ == items@[i as int]@);
                    out.push(c);
                    assert(items_view(items@)[i as int] == items@[i as int]@);
                    assert(items_view(out@) =~= items_view(items@).subrange(0, i + 1));
                    i = i + 1;
                }
                assert(items_view(items@).subrange(0, items.len() as int) =~= items_view(items@));
                proof {
                    lemma_list_view(out);
                    lemma_list_view(*items);
                }
                Literal::List(out)
            },
            Literal::Table(entries) => {
                let mut out: Vec<(String, Literal)> = Vec::new();
                let mut i: usize = 0;
                while i < entries.len()
                    invariant
                        i <= entries.len(),
                        entries_view(out@) == entries_view(entries@).subrange(0, i as int),
                    decreases entries.len() - i,
                {
                    proof {
                        assert(decreases_to!(*entries => entries[i as int]));
                        assert(decreases_to!(entries[i as int] => entries[i as int].1));
                    }
                    let c = entries[i].1.duplicate();
                    out.push((entries[i].0.clone(), c));
                    assert(entries_view(entries@)[i as int] == (entries@[i as int].0@, entries@[i as int].1@));
                    assert(entries_view(out@) =~= entries_view(entries@).subrange(0, i + 1));
                    i = i + 1;
                }
                assert(entries_view(entries@).subrange(0, entries.len() as int) =~= entries_view(
                    entries@,
                ));
                proof {
                    lemma_table_view(out);
                    lemma_table_view(*entries);
                }
                Literal::Table(out)
            },
        }
    }
}

} // verus!
