use vstd::prelude::*;
use crate::literal::{Literal, LitV, entries_view, items_view, lemma_list_view, lemma_table_view};
use crate::text::{chars_of, string_of, string_views, sub_chars};
use crate::toml_bridge::{toml_document_text, render_document};

verus! {

/// Lexicographic order of texts, as `String`'s `Ord` compares them.
pub open spec fn lex_lt(a: Seq<char>, b: Seq<char>) -> bool
    decreases a.len(),
{
    if a.len() == 0 {
        b.len() > 0
    } else if b.len() == 0 {
        false
    } else if a[0] != b[0] {
        (a[0] as u32) < (b[0] as u32)
    } else {
        lex_lt(a.drop_first(), b.drop_first())
    }
}

/// The first position of `k` in `order`, or `order.len()` when absent.
pub open spec fn name_pos(order: Seq<Seq<char>>, k: Seq<char>) -> int
    decreases order.len(),
{
    if order.len() == 0 {
        0
    } else if order[0] == k {
        0
    } else {
        1 + name_pos(order.drop_first(), k)
    }
}

/// Whether key `a` is written before key `b`: by position in the explicit
/// order (absent keys last), then lexically; lexically when there is none.
pub open spec fn name_before(a: Seq<char>, b: Seq<char>, order: Option<Seq<Seq<char>>>) -> bool {
    match order {
        None => lex_lt(a, b),
        Some(o) => name_pos(o, a) < name_pos(o, b) || (name_pos(o, a) == name_pos(o, b) && lex_lt(
            a,
            b,
        )),
    }
}

pub open spec fn name_insert(
    s: Seq<(Seq<char>, Option<Seq<char>>)>,
    x: (Seq<char>, Option<Seq<char>>),
    order: Option<Seq<Seq<char>>>,
) -> Seq<(Seq<char>, Option<Seq<char>>)>
    decreases s.len(),
{
    if s.len() == 0 {
        seq![x]
    } else if !name_before(x.0, s.last().0, order) {
        s.push(x)
    } else {
        name_insert(s.drop_last(), x, order).push(s.last())
    }
}

/// Keyed texts sorted by key, stably.
pub open spec fn name_sort(s: Seq<(Seq<char>, Option<Seq<char>>)>, order: Option<Seq<Seq<char>>>) -> Seq<
    (Seq<char>, Option<Seq<char>>),
>
    decreases s.len(),
{
    if s.len() == 0 {
        s
    } else {
        name_insert(name_sort(s.drop_last(), order), s.last(), order)
    }
}

pub open spec fn opt_text(o: Option<String>) -> Option<Seq<char>> {
    match o {
        Some(s) => Some(s@),
        None => None,
    }
}

pub open spec fn kt_view(s: Seq<(String, Option<String>)>) -> Seq<(Seq<char>, Option<Seq<char>>)> {
    s.map_values(|p: (String, Option<String>)| (p.0@, opt_text(p.1)))
}

pub open spec fn order_view(order: Option<&Vec<String>>) -> Option<Seq<Seq<char>>> {
    match order {
        Some(o) => Some(string_views(o@)),
        None => None,
    }
}

/// The texts one after the other, if none is missing.
pub open spec fn concat_texts(s: Seq<(Seq<char>, Option<Seq<char>>)>) -> Option<Seq<char>>
    decreases s.len(),
{
    if s.len() == 0 {
        Some(Seq::empty())
    } else {
        match (concat_texts(s.drop_last()), s.last().1) {
            (Some(a), Some(t)) => Some(a + t),
            _ => None,
        }
    }
}

/// `key = text` for each entry, separated by commas, if none is missing.
pub open spec fn join_entries(s: Seq<(Seq<char>, Option<Seq<char>>)>) -> Option<Seq<char>>
    decreases s.len(),
{
    if s.len() == 0 {
        Some(Seq::empty())
    } else {
        match (join_entries(s.drop_last()), s.last().1) {
            (Some(a), Some(t)) => Some(
                if s.len() == 1 {
                    s.last().0 + " = "@ + t
                } else {
                    a + ", "@ + s.last().0 + " = "@ + t
                },
            ),
            _ => None,
        }
    }
}

/// Where the first line of `t` ends.
pub open spec fn line_end(t: Seq<char>) -> int
    decreases t.len(),
{
    if t.len() == 0 {
        0
    } else if t[0] == '\n' {
        0
    } else {
        1 + line_end(t.drop_first())
    }
}

/// The first line of `t`, without its line ending, as `str::lines` gives it.
pub open spec fn first_line(t: Seq<char>) -> Seq<char> {
    let e = line_end(t);
    let l = t.subrange(0, e);
    if e < t.len() && l.len() > 0 && l.last() == '\r' {
        l.drop_last()
    } else {
        l
    }
}

/// The right-hand side of the entry `v = ...` on the first line of a
/// written document, if the document has one.
pub open spec fn rhs_of_document(t: Seq<char>) -> Option<Seq<char>> {
    let l = first_line(t);
    if t.len() > 0 && l.len() >= 4 && l.subrange(0, 4) == "v = "@ {
        Some(l.subrange(4, l.len() as int))
    } else {
        None
    }
}

/// The literal text of a value that is not a table: toml writes the entry
/// `v = value`, and the text after `v = ` on its first line is taken.
pub open spec fn scalar_text(v: LitV) -> Option<Seq<char>> {
    match toml_document_text("v"@, v) {
        Some(t) => rhs_of_document(t),
        None => None,
    }
}

/// The keyed texts of a table's values, in the table's order.
pub open spec fn keyed_texts(es: Seq<(Seq<char>, LitV)>) -> Seq<(Seq<char>, Option<Seq<char>>)>
    decreases es, 0int,
{
    Seq::new(
        es.len(),
        |i: int|
            if 0 <= i < es.len() {
                (es[i].0, rhs_text(es[i].1))
            } else {
                (Seq::empty(), None)
            },
    )
}

/// The right-hand side written for a value: an inline table with sorted
/// keys, or the scalar literal text.
pub open spec fn rhs_text(v: LitV) -> Option<Seq<char>>
    decreases v, 1int,
{
    match v {
        LitV::Table(es) => match join_entries(name_sort(keyed_texts(es), None)) {
            Some(body) => Some("{ "@ + body + " }"@),
            None => None,
        },
        _ => scalar_text(v),
    }
}

pub fn lex_less(a: &String, b: &String) -> (r: bool)
    ensures
        r == lex_lt(a@, b@),
{
    let x = chars_of(a.as_str());
    let y = chars_of(b.as_str());
    let mut i: usize = 0;
    assert(x@.subrange(0, x@.len() as int) =~= x@);
    assert(y@.subrange(0, y@.len() as int) =~= y@);
    while i < x.len() && i < y.len() && x[i] == y[i]
        invariant
            i <= x.len(),
            i <= y.len(),
            x@ == a@,
            y@ == b@,
            lex_lt(a@, b@) == lex_lt(
                x@.subrange(i as int, x@.len() as int),
                y@.subrange(i as int, y@.len() as int),
            ),
        decreases x.len() - i,
    {
        assert(x@.subrange(i as int, x@.len() as int).drop_first() =~= x@.subrange(
            i + 1,
            x@.len() as int,
        ));
        assert(y@.subrange(i as int, y@.len() as int).drop_first() =~= y@.subrange(
            i + 1,
            y@.len() as int,
        ));
        i = i + 1;
    }
    if i == x.len() {
        i < y.len()
    } else if i == y.len() {
        false
    } else {
        assert(x@.subrange(i as int, x@.len() as int)[0] == x@[i as int]);
        assert(y@.subrange(i as int, y@.len() as int)[0] == y@[i as int]);
        (x[i] as u32) < (y[i] as u32)
    }
}

pub fn name_position(order: &Vec<String>, k: &String) -> (r: usize)
    ensures
        r as int == name_pos(string_views(order@), k@),
{
    let ghost ov = string_views(order@);
    let mut i: usize = 0;
    assert(ov.subrange(0, ov.len() as int) =~= ov);
    while i < order.len()
        invariant
            i <= order.len(),
            ov == string_views(order@),
            name_pos(ov, k@) == i + name_pos(ov.subrange(i as int, ov.len() as int), k@),
        decreases order.len() - i,
    {
        let ghost rest = ov.subrange(i as int, ov.len() as int);
        assert(rest.drop_first() =~= ov.subrange(i + 1, ov.len() as int));
        assert(rest[0] == order@[i as int]@);
        if order[i] == *k {
            return i;
        }
        i = i + 1;
    }
    i
}

pub fn name_before_exec(a: &String, b: &String, order: Option<&Vec<String>>) -> (r: bool)
    ensures
        r == name_before(a@, b@, order_view(order)),
{
    match order {
        None => lex_less(a, b),
        Some(o) => {
            let pa = name_position(o, a);
            let pb = name_position(o, b);
            pa < pb || (pa == pb && lex_less(a, b))
        },
    }
}

fn insert_named(v: Vec<(String, Option<String>)>, x: (String, Option<String>), order: Option<&Vec<String>>) -> (r: Vec<(String, Option<String>)>)
    ensures
        kt_view(r@) == name_insert(kt_view(v@), (x.0@, opt_text(x.1)), order_view(order)),
    decreases v.len(),
{
    let mut v = v;
    let ghost s = v@;
    let ghost xv = (x.0@, opt_text(x.1));
    if v.len() == 0 {
        v.push(x);
        assert(kt_view(v@) =~= seq![xv]);
        return v;
    }
    let last = v.pop().unwrap();
    assert(v@ == s.drop_last());
    assert(kt_view(s).drop_last() =~= kt_view(v@));
    assert(kt_view(s).last() == (last.0@, opt_text(last.1)));
    if !name_before_exec(&x.0, &last.0, order) {
        v.push(last);
        v.push(x);
        assert(kt_view(v@) =~= kt_view(s).push(xv));
        v
    } else {
        let ghost lv = (last.0@, opt_text(last.1));
        let mut r = insert_named(v, x, order);
        let ghost before = r@;
        r.push(last);
        assert(kt_view(r@) =~= kt_view(before).push(lv));
        r
    }
}

/// Sorts keyed texts by key: lexically, or by the explicit order.
pub fn sort_named(v: Vec<(String, Option<String>)>, order: Option<&Vec<String>>) -> (r: Vec<(String, Option<String>)>)
    ensures
        kt_view(r@) == name_sort(kt_view(v@), order_view(order)),
    decreases v.len(),
{
    let mut v = v;
    if v.len() == 0 {
        return v;
    }
    let ghost s = v@;
    let last = v.pop().unwrap();
    assert(v@ == s.drop_last());
    assert(kt_view(s).drop_last() =~= kt_view(v@));
    assert(kt_view(s).last() == (last.0@, opt_text(last.1)));
    let sorted = sort_named(v, order);
    insert_named(sorted, last, order)
}

pub proof fn lemma_concat_missing(s: Seq<(Seq<char>, Option<Seq<char>>)>, i: int)
    requires
        0 <= i <= s.len(),
        concat_texts(s.subrange(0, i)) is None,
    ensures
        concat_texts(s) is None,
    decreases s.len() - i,
{
    if i == s.len() {
        assert(s.subrange(0, i) =~= s);
    } else {
        assert(s.drop_last().subrange(0, i) =~= s.subrange(0, i));
        lemma_concat_missing(s.drop_last(), i);
    }
}

pub proof fn lemma_join_missing(s: Seq<(Seq<char>, Option<Seq<char>>)>, i: int)
    requires
        0 <= i <= s.len(),
        join_entries(s.subrange(0, i)) is None,
    ensures
        join_entries(s) is None,
    decreases s.len() - i,
{
    if i == s.len() {
        assert(s.subrange(0, i) =~= s);
    } else {
        assert(s.drop_last().subrange(0, i) =~= s.subrange(0, i));
        lemma_join_missing(s.drop_last(), i);
    }
}

/// The texts one after the other; `None` when one is missing.
pub fn concat_pieces(s: &Vec<(String, Option<String>)>) -> (r: Option<String>)
    ensures
        opt_text(r) == concat_texts(kt_view(s@)),
{
    let ghost sv = kt_view(s@);
    let mut acc = String::new();
    let mut i: usize = 0;
    assert(sv.subrange(0, 0) =~= Seq::<(Seq<char>, Option<Seq<char>>)>::empty());
    while i < s.len()
        invariant
            i <= s.len(),
            sv == kt_view(s@),
            concat_texts(sv.subrange(0, i as int)) == Some(acc@),
        decreases s.len() - i,
    {
        let ghost next = sv.subrange(0, i + 1);
        assert(next.drop_last() =~= sv.subrange(0, i as int));
        assert(next.last() == sv[i as int]);
        match &s[i].1 {
            Some(t) => {
                acc.append(t.as_str());
            },
            None => {
                proof { lemma_concat_missing(sv, i + 1); }
                return None;
            },
        }
        i = i + 1;
    }
    assert(sv.subrange(0, s.len() as int) =~= sv);
    Some(acc)
}

/// `key = text` for each entry, separated by commas; `None` when a text
/// is missing.
pub fn join_pieces(s: &Vec<(String, Option<String>)>) -> (r: Option<String>)
    ensures
        opt_text(r) == join_entries(kt_view(s@)),
{
    let ghost sv = kt_view(s@);
    let mut acc = String::new();
    let mut i: usize = 0;
    assert(sv.subrange(0, 0) =~= Seq::<(Seq<char>, Option<Seq<char>>)>::empty());
    while i < s.len()
        invariant
            i <= s.len(),
            sv == kt_view(s@),
            join_entries(sv.subrange(0, i as int)) == Some(acc@),
        decreases s.len() - i,
    {
        let ghost next = sv.subrange(0, i + 1);
        assert(next.drop_last() =~= sv.subrange(0, i as int));
        assert(next.last() == sv[i as int]);
        match &s[i].1 {
            Some(t) => {
                if i > 0 {
                    acc.append(", ");
                }
                acc.append(s[i].0.as_str());
                acc.append(" = ");
                acc.append(t.as_str());
                assert(acc@ == join_entries(next)->0);
            },
            None => {
                proof { lemma_join_missing(sv, i + 1); }
                return None;
            },
        }
        i = i + 1;
    }
    assert(sv.subrange(0, s.len() as int) =~= sv);
    Some(acc)
}

/// The first line of `t`, without its line ending.
pub fn first_line_of(t: &String) -> (r: Vec<char>)
    ensures
        r@ == first_line(t@),
{
    let c = chars_of(t.as_str());
    let n = c.len();
    let mut e: usize = 0;
    assert(c@.subrange(0, n as int) =~= c@);
    while e < n && c[e] != '\n'
        invariant
            e <= n == c.len(),
            c@ == t@,
            line_end(t@) == e + line_end(c@.subrange(e as int, n as int)),
        decreases n - e,
    {
        assert(c@.subrange(e as int, n as int).drop_first() =~= c@.subrange(e + 1, n as int));
        e = e + 1;
    }
    if e < n {
        assert(c@.subrange(e as int, n as int)[0] == c@[e as int]);
    }
    assert(line_end(t@) == e);
    if e < n && e > 0 && c[e - 1] == '\r' {
        sub_chars(&c, 0, e - 1)
    } else {
        sub_chars(&c, 0, e)
    }
}

/// The line `key = text` written for an entry of a record.
pub open spec fn assign_text(k: Seq<char>, v: LitV) -> Option<Seq<char>> {
    match rhs_text(v) {
        Some(t) => Some(k + " = "@ + t + "\n"@),
        None => None,
    }
}

/// The message of every rendering failure.
pub open spec fn render_failure() -> Seq<char> {
    "failed to render value"@
}

pub fn render_error() -> (r: String)
    ensures
        r@ == render_failure(),
{
    String::from_str("failed to render value")
}

/// Takes the right-hand side of the entry `v = ...` from the first line of
/// a written document.
pub fn rhs_from_document(text: &String) -> (r: Result<String, String>)
    ensures
        r matches Err(e) ==> e@ == render_failure(),
        r is Ok <==> rhs_of_document(text@) is Some,
        r matches Ok(t) ==> rhs_of_document(text@) == Some(t@),
{
    let tc = chars_of(text.as_str());
    if tc.len() == 0 {
        return Err(render_error());
    }
    let l = first_line_of(text);
    proof { reveal_strlit("v = "); }
    if l.len() >= 4 && l[0] == 'v' && l[1] == ' ' && l[2] == '=' && l[3] == ' ' {
        assert(l@.subrange(0, 4) =~= "v = "@);
        let rest = sub_chars(&l, 4, l.len());
        Ok(string_of(rest.as_slice()))
    } else {
        assert(l@.len() >= 4 ==> l@.subrange(0, 4)[0] == l@[0] && l@.subrange(0, 4)[1] == l@[1]
            && l@.subrange(0, 4)[2] == l@[2] && l@.subrange(0, 4)[3] == l@[3]);
        Err(render_error())
    }
}

/// Writes a value that is not a table as its TOML literal text.
pub fn render_non_table_rhs(value: &Literal) -> (r: Result<String, String>)
    ensures
        r matches Err(e) ==> e@ == render_failure(),
        r is Ok <==> scalar_text(value@) is Some,
        r matches Ok(t) ==> scalar_text(value@) == Some(t@),
{
    match render_document("v", value) {
        Ok(t) => rhs_from_document(&t),
        Err(_) => Err(render_error()),
    }
}

/// Writes the right-hand side for a value: an inline table, or the
/// literal text of any other value.
pub fn render_rhs(value: &Literal) -> (r: Result<String, String>)
    ensures
        r matches Err(e) ==> e@ == render_failure(),
        r is Ok <==> rhs_text(value@) is Some,
        r matches Ok(t) ==> rhs_text(value@) == Some(t@),
    decreases value,
{
    match value {
        Literal::Table(entries) => {
            proof { lemma_table_view(*entries); }
            render_inline_table(entries)
        },
        _ => render_non_table_rhs(value),
    }
}

/// Writes a table inline, `{ k = v, ... }`, with keys in lexical order.
pub fn render_inline_table(table: &Vec<(String, Literal)>) -> (r: Result<String, String>)
    ensures
        r matches Err(e) ==> e@ == render_failure(),
        r is Ok <==> rhs_text(LitV::Table(entries_view(table@))) is Some,
        r matches Ok(t) ==> rhs_text(LitV::Table(entries_view(table@))) == Some(t@),
    decreases table,
{
    let ghost ev = entries_view(table@);
    let mut kts: Vec<(String, Option<String>)> = Vec::new();
    let mut i: usize = 0;
    while i < table.len()
        invariant
            i <= table.len(),
            ev == entries_view(table@),
            kt_view(kts@) == keyed_texts(ev).subrange(0, i as int),
        decreases table.len() - i,
    {
        proof {
            assert(decreases_to!(*table => table[i as int]));
            assert(decreases_to!(table[i as int] => table[i as int].1));
        }
        assert(ev[i as int] == (table@[i as int].0@, table@[i as int].1@));
        let t = match render_rhs(&table[i].1) {
            Ok(t) => Some(t),
            Err(_) => None,
        };
        let ghost before = kts@;
        let ghost tv = opt_text(t);
        assert(tv == rhs_text(ev[i as int].1));
        kts.push((table[i].0.clone(), t));
        assert(kt_view(kts@) =~= kt_view(before).push((ev[i as int].0, tv)));
        assert(keyed_texts(ev)[i as int] == (ev[i as int].0, rhs_text(ev[i as int].1)));
        assert(kt_view(kts@) =~= keyed_texts(ev).subrange(0, i + 1));
        i = i + 1;
    }
    assert(keyed_texts(ev).subrange(0, table.len() as int) =~= keyed_texts(ev));
    let sorted = sort_named(kts, None);
    match join_pieces(&sorted) {
        Some(body) => {
            let mut out = String::from_str("{ ");
            out.append(body.as_str());
            out.append(" }");
            Ok(out)
        },
        None => Err(render_error()),
    }
}

/// Writes the line `key = value` of a record.
pub fn render_assignment(key: &str, value: &Literal) -> (r: Result<String, String>)
    ensures
        r matches Err(e) ==> e@ == render_failure(),
        r is Ok <==> assign_text(key@, value@) is Some,
        r matches Ok(t) ==> assign_text(key@, value@) == Some(t@),
{
    let rhs = match render_rhs(value) {
        Ok(t) => t,
        Err(e) => return Err(e),
    };
    let mut out = String::from_str(key);
    out.append(" = ");
    out.append(rhs.as_str());
    out.append("\n");
    Ok(out)
}

} // verus!
