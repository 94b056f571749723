//! Commands and the recursive-descent parser that reads them from text.

use vstd::prelude::*;
use crate::cursor::{Cursor, Scan, run, after_run, tokenize, lemma_after_run_bound};
use crate::literal::{str_lit, infer, uuid_text, read_str, type_token, lemma_str_lit_advances};
use crate::text::{upper_of, trimmed, skip_ws_from, is_whitespace, is_keyword, to_upper, chars_of, trim};
use crate::value::{Types, Lit, Entity, denotes, put, entries_denote, lemma_put_denotes};

verus! {

/// A parsed query.
#[derive(Debug, PartialEq)]
pub enum Wql {
    CreateEntity(String),
    Insert(String, Entity),
}

/// A query in mathematical terms.
pub enum Command {
    CreateEntity(Seq<char>),
    Insert(Seq<char>, Seq<(Seq<char>, Lit)>),
}

/// `w` is the command `c`.
pub open spec fn command_denotes(w: Wql, c: Command) -> bool {
    match (w, c) {
        (Wql::CreateEntity(n), Command::CreateEntity(m)) => n@ == m,
        (Wql::Insert(n, e), Command::Insert(m, es)) => n@ == m && e.wf() && entries_denote(e.view(), es),
        _ => false,
    }
}

/// `r` is the outcome that `s` describes.
pub open spec fn parsed(r: Result<Wql, String>, s: Result<Command, Seq<char>>) -> bool {
    match s {
        Ok(c) => r is Ok && command_denotes(r->Ok_0, c),
        Err(e) => r is Err && r->Err_0@ == e,
    }
}

/// A key that starts with `c`, the rest read from position `i`: the key and
/// the position after it. The one character that ends the key is dropped
/// whatever it is: `a: 1` and `a 1` bind `a` alike, so any single character
/// separates a key from its value. This permissive reading is kept on
/// purpose, for compatibility with existing queries.
pub open spec fn key_at(c: char, s: Seq<char>, i: int) -> (Seq<char>, int) {
    (seq![c] + run(s, i, Scan::Name), after_run(s, i, Scan::Name))
}

/// A value that starts with `c`, the rest read from position `i`: the
/// literal and the position after it, or the error message.
pub open spec fn value_at(c: char, s: Seq<char>, i: int) -> Result<(Lit, int), Seq<char>> {
    if c == '"' {
        match str_lit(s, i, false, Seq::empty()) {
            Ok((v, j)) => Ok((Lit::Str(v), j)),
            Err(e) => Err(e),
        }
    } else {
        let t = seq![c] + run(s, i, Scan::Token);
        match infer(t, uuid_text(t)) {
            Ok(l) => Ok((l, after_run(s, i, Scan::Token))),
            Err(e) => Err(e),
        }
    }
}

pub open spec fn map_error() -> Seq<char> {
    "Entity HashMap could not be created"@
}

/// The body of a map from position `i`, with `key` read and waiting for its
/// value and `acc` the entries so far: the entries and the position past
/// the closing brace, or the error message. A key still waiting for its
/// value at `}` is dropped without an error, by choice: `{ a: 1, b }` is the
/// map of `a` alone. A key bound twice keeps its last value.
pub open spec fn map_loop(
    s: Seq<char>,
    i: int,
    key: Option<Seq<char>>,
    acc: Seq<(Seq<char>, Lit)>,
) -> Result<(Seq<(Seq<char>, Lit)>, int), Seq<char>>
    decreases s.len() - i,
{
    if i < 0 || i >= s.len() {
        Err(map_error())
    } else if s[i] == '}' {
        Ok((acc, i + 1))
    } else if crate::text::is_ws(s[i]) || s[i] == ',' {
        map_loop(s, i + 1, key, acc)
    } else {
        match key {
            None => {
                let (k, j) = key_at(s[i], s, i + 1);
                if i < j <= s.len() {
                    map_loop(s, j, Some(k), acc)
                } else {
                    Err(map_error())
                }
            },
            Some(k) => match value_at(s[i], s, i + 1) {
                Err(e) => Err(e),
                Ok((l, j)) => if i < j <= s.len() {
                    map_loop(s, j, None, put(acc, k, l))
                } else {
                    Err(map_error())
                },
            },
        }
    }
}

/// A map `{ key: value, ... }` from position `i`.
pub open spec fn map_at(s: Seq<char>, i: int) -> Result<(Seq<(Seq<char>, Lit)>, int), Seq<char>> {
    if 0 <= i < s.len() && s[i] == '{' {
        map_loop(s, i + 1, None, Seq::empty())
    } else {
        Err("Entity map should start with `{` and end with `}`"@)
    }
}

/// The rest of `CREATE`, from position `i`.
pub open spec fn create_at(s: Seq<char>, i: int) -> Result<Command, Seq<char>> {
    if upper_of(run(s, i, Scan::Word)) != "ENTITY"@ {
        Err("Keyword ENTITY is required for CREATE"@)
    } else {
        Ok(Command::CreateEntity(trimmed(run(s, after_run(s, i, Scan::Word), Scan::Name))))
    }
}

/// The rest of `INSERT`, from position `i`.
pub open spec fn insert_at(s: Seq<char>, i: int) -> Result<Command, Seq<char>> {
    match map_at(s, i) {
        Err(e) => Err(e),
        Ok((m, j)) => {
            let k = skip_ws_from(s, j);
            if upper_of(run(s, k, Scan::Word)) != "INTO"@ {
                Err("Keyword INTO is required for INSERT"@)
            } else {
                let name = trimmed(run(s, after_run(s, k, Scan::Word), Scan::Name));
                if name.len() == 0 {
                    Err("Entity name is required after INTO"@)
                } else {
                    Ok(Command::Insert(name, m))
                }
            }
        },
    }
}

/// A command whose first character is `a`, the rest read from position `i`.
pub open spec fn symbol_at(a: char, s: Seq<char>, i: int) -> Result<Command, Seq<char>> {
    let w = run(s, i, Scan::Word);
    let j = after_run(s, i, Scan::Word);
    if (a == 'c' || a == 'C') && upper_of(w) == "REATE"@ {
        create_at(s, j)
    } else if (a == 'i' || a == 'I') && upper_of(w) == "NSERT"@ {
        insert_at(s, j)
    } else {
        Err("Symbol `"@ + seq![a] + w + "` not implemented"@)
    }
}

/// The command that the query `q` reads as, or the error message.
pub open spec fn wql_of(q: Seq<char>) -> Result<Command, Seq<char>> {
    let k = skip_ws_from(q, 0);
    if k >= q.len() {
        Err("Empty WQL"@)
    } else {
        symbol_at(q[k], q, k + 1)
    }
}

/// Reads a key whose first character `c` was just read.
pub fn parse_key(c: char, chars: &mut Cursor) -> (r: String)
    requires
        old(chars).wf(),
    ensures
        final(chars).wf(),
        final(chars).text() == old(chars).text(),
        r@ == key_at(c, old(chars).text(), old(chars).at()).0,
        final(chars).at() == key_at(c, old(chars).text(), old(chars).at()).1,
{
    let rest = chars.take_while(Scan::Name);
    let v = vec![c];
    let r = crate::text::message("", &v, rest.as_str());
    proof {
        reveal_strlit("");
        assert(r@ =~= seq![c] + rest@);
    }
    r
}

/// Reads a value whose first character `c` was just read.
pub fn parse_value(c: char, chars: &mut Cursor) -> (r: Result<Types, String>)
    requires
        old(chars).wf(),
    ensures
        final(chars).wf(),
        final(chars).text() == old(chars).text(),
        match value_at(c, old(chars).text(), old(chars).at()) {
            Ok((l, j)) => r is Ok && denotes(r->Ok_0, l) && final(chars).at() == j,
            Err(e) => r is Err && r->Err_0@ == e,
        },
{
    if c == '"' {
        return read_str(chars);
    }
    let rest = chars.take_while(Scan::Token);
    let mut t = vec![c];
    let rc = chars_of(rest.as_str());
    let mut k: usize = 0;
    while k < rc.len()
        invariant
            k <= rc@.len(),
            t@ == seq![c] + rc@.subrange(0, k as int),
        decreases rc@.len() - k,
    {
        t.push(rc[k]);
        k = k + 1;
        assert(t@ =~= seq![c] + rc@.subrange(0, k as int));
    }
    assert(rc@.subrange(0, rc@.len() as int) =~= rc@);
    type_token(&t)
}

/// The key waiting for its value, as text.
pub open spec fn key_view(k: Option<String>) -> Option<Seq<char>> {
    match k {
        Some(s) => Some(s@),
        None => None,
    }
}

/// Reads a map `{ key: value, ... }`.
pub fn read_map(chars: &mut Cursor) -> (r: Result<Entity, String>)
    requires
        old(chars).wf(),
    ensures
        final(chars).wf(),
        final(chars).text() == old(chars).text(),
        match map_at(old(chars).text(), old(chars).at()) {
            Ok((m, j)) => r is Ok && r->Ok_0.wf() && entries_denote(r->Ok_0.view(), m)
                && final(chars).at() == j,
            Err(e) => r is Err && r->Err_0@ == e,
        },
{
    let ghost s = chars.text();
    match chars.next() {
        Some('{') => {},
        _ => {
            return Err(String::from_str("Entity map should start with `{` and end with `}`"));
        },
    }
    let mut res = Entity::new();
    let mut key: Option<String> = None;
    let ghost mut m: Seq<(Seq<char>, Lit)> = Seq::empty();
    loop
        invariant
            chars.wf(),
            chars.text() == s,
            s == old(chars).text(),
            res.wf(),
            entries_denote(res.view(), m),
            map_loop(s, chars.at(), key_view(key), m) == map_at(s, old(chars).at()),
        decreases s.len() - chars.pos,
    {
        let ghost i = chars.at();
        match chars.next() {
            None => {
                return Err(String::from_str("Entity HashMap could not be created"));
            },
            Some(c) => {
                if c == '}' {
                    return Ok(res);
                } else if is_whitespace(c) || c == ',' {
                } else if key.is_none() {
                    proof {
                        lemma_after_run_bound(s, i + 1, Scan::Name);
                    }
                    let k = parse_key(c, chars);
                    key = Some(k);
                } else {
                    let k = key.unwrap();
                    proof {
                        lemma_after_run_bound(s, i + 1, Scan::Token);
                        lemma_str_lit_advances(s, i + 1, false, Seq::empty());
                    }
                    let ghost outcome = value_at(c, s, i + 1);
                    match parse_value(c, chars) {
                        Err(e) => {
                            return Err(e);
                        },
                        Ok(v) => {
                            let ghost l = outcome->Ok_0.0;
                            proof {
                                lemma_put_denotes(res.view(), m, k@, v, l);
                                m = put(m, k@, l);
                            }
                            res.insert(k, v);
                            key = None;
                        },
                    }
                }
            },
        }
    }
}

/// Reads the rest of `CREATE ENTITY <name>`.
pub fn create_entity(chars: &mut Cursor) -> (r: Result<Wql, String>)
    requires
        old(chars).wf(),
    ensures
        final(chars).wf(),
        final(chars).text() == old(chars).text(),
        parsed(r, create_at(old(chars).text(), old(chars).at())),
        r is Ok ==> final(chars).at() == after_run(
            old(chars).text(),
            after_run(old(chars).text(), old(chars).at(), Scan::Word),
            Scan::Name,
        ),
{
    let symbol = chars.take_while(Scan::Word);
    if !is_keyword(&to_upper(&symbol), "ENTITY") {
        return Err(String::from_str("Keyword ENTITY is required for CREATE"));
    }
    let name = chars.take_while(Scan::Name);
    Ok(Wql::CreateEntity(trim(&chars_of(name.as_str()))))
}

/// Reads the rest of `INSERT { ... } INTO <name>`.
pub fn insert(chars: &mut Cursor) -> (r: Result<Wql, String>)
    requires
        old(chars).wf(),
    ensures
        final(chars).wf(),
        final(chars).text() == old(chars).text(),
        parsed(r, insert_at(old(chars).text(), old(chars).at())),
{
    let entity_map = match read_map(chars) {
        Ok(e) => e,
        Err(e) => {
            return Err(e);
        },
    };
    chars.skip_whitespace();
    let symbol = chars.take_while(Scan::Word);
    if !is_keyword(&to_upper(&symbol), "INTO") {
        return Err(String::from_str("Keyword INTO is required for INSERT"));
    }
    let name_run = chars.take_while(Scan::Name);
    let name = trim(&chars_of(name_run.as_str()));
    if name.as_str().is_empty() {
        return Err(String::from_str("Entity name is required after INTO"));
    }
    Ok(Wql::Insert(name, entity_map))
}

/// Reads a command whose first character `a` was just read.
pub fn read_symbol(a: char, chars: &mut Cursor) -> (r: Result<Wql, String>)
    requires
        old(chars).wf(),
    ensures
        final(chars).wf(),
        final(chars).text() == old(chars).text(),
        parsed(r, symbol_at(a, old(chars).text(), old(chars).at())),
{
    let symbol = chars.take_while(Scan::Word);
    let upper = to_upper(&symbol);
    if (a == 'c' || a == 'C') && is_keyword(&upper, "REATE") {
        create_entity(chars)
    } else if (a == 'i' || a == 'I') && is_keyword(&upper, "NSERT") {
        insert(chars)
    } else {
        let v = vec![a];
        let head = crate::text::message("Symbol `", &v, "");
        let r = crate::text::message(head.as_str(), &chars_of(symbol.as_str()), "` not implemented");
        proof {
            reveal_strlit("");
            assert(v@ =~= seq![a]);
            assert(r@ =~= "Symbol `"@ + seq![a] + symbol@ + "` not implemented"@);
        }
        Err(r)
    }
}

/// Reads a command whose first character, where there is one, is `c`.
pub fn parse(c: Option<char>, chars: &mut Cursor) -> (r: Result<Wql, String>)
    requires
        old(chars).wf(),
    ensures
        final(chars).wf(),
        final(chars).text() == old(chars).text(),
        c is None ==> final(chars).at() == old(chars).at(),
        c is None ==> r is Err && r->Err_0@ == "Empty WQL"@,
        c matches Some(a) ==> parsed(r, symbol_at(a, old(chars).text(), old(chars).at())),
{
    match c {
        Some(a) => read_symbol(a, chars),
        None => Err(String::from_str("Empty WQL")),
    }
}

/// Reads the query `s`.
pub fn parse_wql(s: &str) -> (r: Result<Wql, String>)
    ensures
        parsed(r, wql_of(s@)),
{
    let mut tokens = tokenize(s);
    tokens.skip_whitespace();
    let c = tokens.next();
    parse(c, &mut tokens)
}

impl core::str::FromStr for Wql {
    type Err = String;

    fn from_str(s: &str) -> (r: Result<Wql, String>)
        ensures
            parsed(r, wql_of(s@)),
    {
        parse_wql(s)
    }
}

} // verus!
