//! What holds of every query of a given shape. Keywords are written as the
//! dispatcher reads them: a first letter in either case and a rest whose
//! upper case is the keyword's rest, or a word whose upper case is the
//! keyword.

use vstd::prelude::*;
use crate::cursor::{Scan, accepts, run, after_run, lemma_run_len_exact};
use crate::parser::{Command, wql_of};
use crate::text::{is_ws, is_name_char, upper_of, trim_start, trim_end, skip_ws_from};

verus! {

/// The word `w` is read whole from position `i` of `q`, which it is
/// followed by the end or by white space.
proof fn lemma_word_at(q: Seq<char>, i: int, w: Seq<char>)
    requires
        0 <= i,
        i + w.len() <= q.len(),
        q.subrange(i, i + w.len()) == w,
        forall|k: int| 0 <= k < w.len() ==> !is_ws(#[trigger] w[k]),
        i + w.len() == q.len() || is_ws(q[i + w.len()]),
    ensures
        run(q, i, Scan::Word) == w,
        after_run(q, i, Scan::Word) == if i + w.len() < q.len() { i + w.len() + 1 } else { i + w.len() },
{
    let e = i + w.len();
    assert forall|m: int| i <= m < e implies accepts(Scan::Word, #[trigger] q[m]) by {
        assert(q[m] == q.subrange(i, e)[m - i]);
    }
    lemma_run_len_exact(q, i, e, Scan::Word);
}

/// `CREATE ENTITY <name>`, for every non-empty name of letters, digits and
/// underscores, creates the entity `name`.
pub proof fn lemma_create_entity(a: char, create_rest: Seq<char>, entity: Seq<char>, name: Seq<char>)
    requires
        a == 'c' || a == 'C',
        upper_of(create_rest) == "REATE"@,
        forall|i: int| 0 <= i < create_rest.len() ==> !is_ws(#[trigger] create_rest[i]),
        upper_of(entity) == "ENTITY"@,
        forall|i: int| 0 <= i < entity.len() ==> !is_ws(#[trigger] entity[i]),
        name.len() > 0,
        forall|i: int| 0 <= i < name.len() ==> is_name_char(#[trigger] name[i]),
    ensures
        wql_of(seq![a] + create_rest + " "@ + entity + " "@ + name) == Ok::<Command, Seq<char>>(
            Command::CreateEntity(name),
        ),
{
    reveal_strlit(" ");
    let q = seq![a] + create_rest + " "@ + entity + " "@ + name;
    let e1 = 1 + create_rest.len() as int;
    let e2 = e1 + 1 + entity.len() as int;
    assert(q[0] == a);
    assert(skip_ws_from(q, 0) == 0);
    assert(q.subrange(1, e1) =~= create_rest);
    assert(q[e1] == ' ');
    lemma_word_at(q, 1, create_rest);
    assert(q.subrange(e1 + 1, e2) =~= entity);
    assert(q[e2] == ' ');
    lemma_word_at(q, e1 + 1, entity);
    let n0 = e2 + 1;
    assert forall|m: int| n0 <= m < q.len() implies accepts(Scan::Name, #[trigger] q[m]) by {
        assert(q[m] == name[m - n0]);
    }
    lemma_run_len_exact(q, n0, q.len() as int, Scan::Name);
    assert(run(q, n0, Scan::Name) =~= name);
    assert(is_name_char(name[0]));
    assert(is_name_char(name.last()));
    assert(trim_start(name) == name);
    assert(trim_end(name) == name);
}

/// `CREATE` followed by a word other than `ENTITY` fails, whatever comes
/// after that word (the end, or white space and anything).
pub proof fn lemma_create_needs_entity(a: char, create_rest: Seq<char>, w: Seq<char>, rest: Seq<char>)
    requires
        a == 'c' || a == 'C',
        upper_of(create_rest) == "REATE"@,
        forall|i: int| 0 <= i < create_rest.len() ==> !is_ws(#[trigger] create_rest[i]),
        forall|i: int| 0 <= i < w.len() ==> !is_ws(#[trigger] w[i]),
        upper_of(w) != "ENTITY"@,
        rest.len() == 0 || is_ws(rest[0]),
    ensures
        wql_of(seq![a] + create_rest + " "@ + w + rest) == Err::<Command, Seq<char>>(
            "Keyword ENTITY is required for CREATE"@,
        ),
{
    reveal_strlit(" ");
    let q = seq![a] + create_rest + " "@ + w + rest;
    let e1 = 1 + create_rest.len() as int;
    let e2 = e1 + 1 + w.len() as int;
    assert(q[0] == a);
    assert(skip_ws_from(q, 0) == 0);
    assert(q.subrange(1, e1) =~= create_rest);
    assert(q[e1] == ' ');
    lemma_word_at(q, 1, create_rest);
    assert(q.subrange(e1 + 1, e2) =~= w);
    assert(e2 < q.len() ==> q[e2] == rest[0]);
    lemma_word_at(q, e1 + 1, w);
}

/// A query whose first word is neither `CREATE` nor `INSERT` fails with a
/// message that quotes that word, whatever comes after it (the end, or
/// white space and anything).
pub proof fn lemma_unknown_symbol(a: char, w: Seq<char>, rest: Seq<char>)
    requires
        !is_ws(a),
        forall|i: int| 0 <= i < w.len() ==> !is_ws(#[trigger] w[i]),
        !((a == 'c' || a == 'C') && upper_of(w) == "REATE"@),
        !((a == 'i' || a == 'I') && upper_of(w) == "NSERT"@),
        rest.len() == 0 || is_ws(rest[0]),
    ensures
        wql_of(seq![a] + w + rest) == Err::<Command, Seq<char>>(
            "Symbol `"@ + seq![a] + w + "` not implemented"@,
        ),
{
    let q = seq![a] + w + rest;
    let e = 1 + w.len() as int;
    assert(q[0] == a);
    assert(skip_ws_from(q, 0) == 0);
    assert(q.subrange(1, e) =~= w);
    assert(e < q.len() ==> q[e] == rest[0]);
    lemma_word_at(q, 1, w);
}

} // verus!
