//! Values of records and the records themselves.

use vstd::prelude::*;

verus! {

/// A typed value of a record field.
#[derive(Debug, PartialEq)]
pub enum Types {
    Char(char),
    Integer(isize),
    String(String),
    /// A UUID as its 128-bit number.
    Uuid(u128),
    /// A 64-bit floating-point number as the literal text it was read from.
    Float(String),
    Boolean(bool),
    Vector(Vec<Types>),
    Mapping(Entity),
    Nil,
}

/// What a scalar literal denotes, in mathematical terms.
pub enum Lit {
    Char(char),
    Integer(int),
    Str(Seq<char>),
    Uuid(u128),
    Float(Seq<char>),
    Boolean(bool),
    Nil,
}

/// `t` is the value that `l` denotes.
pub open spec fn denotes(t: Types, l: Lit) -> bool {
    match (t, l) {
        (Types::Char(a), Lit::Char(b)) => a == b,
        (Types::Integer(a), Lit::Integer(b)) => a as int == b,
        (Types::String(a), Lit::Str(b)) => a@ == b,
        (Types::Uuid(a), Lit::Uuid(b)) => a == b,
        (Types::Float(a), Lit::Float(b)) => a@ == b,
        (Types::Boolean(a), Lit::Boolean(b)) => a == b,
        (Types::Nil, Lit::Nil) => true,
        _ => false,
    }
}

/// Index of the first entry of `m` with key `k`, or `m.len()` where none has it.
pub open spec fn find_key<V>(m: Seq<(Seq<char>, V)>, k: Seq<char>) -> nat
    decreases m.len(),
{
    if m.len() == 0 {
        0
    } else if m[0].0 == k {
        0
    } else {
        1 + find_key(m.drop_first(), k)
    }
}

/// `m` with `k` bound to `v`: the entry of `k` replaced in place, or a new
/// entry at the end.
pub open spec fn put<V>(m: Seq<(Seq<char>, V)>, k: Seq<char>, v: V) -> Seq<(Seq<char>, V)> {
    let i = find_key(m, k);
    if i < m.len() {
        m.update(i as int, (k, v))
    } else {
        m.push((k, v))
    }
}

/// No key occurs twice in `m`.
pub open spec fn keys_unique<V>(m: Seq<(Seq<char>, V)>) -> bool {
    forall|i: int, j: int| 0 <= i < j < m.len() ==> m[i].0 != m[j].0
}

/// The entries of `e` are those of `m`, key for key, each value denoting
/// the literal of `m`.
pub open spec fn entries_denote(e: Seq<(Seq<char>, Types)>, m: Seq<(Seq<char>, Lit)>) -> bool {
    e.len() == m.len() && forall|i: int|
        0 <= i < e.len() ==> (#[trigger] e[i]).0 == m[i].0 && denotes(e[i].1, m[i].1)
}

pub proof fn lemma_find_key<V>(m: Seq<(Seq<char>, V)>, k: Seq<char>)
    ensures
        find_key(m, k) <= m.len(),
        find_key(m, k) < m.len() ==> m[find_key(m, k) as int].0 == k,
        forall|j: int| 0 <= j < find_key(m, k) ==> (#[trigger] m[j]).0 != k,
    decreases m.len(),
{
    if m.len() > 0 && m[0].0 != k {
        let t = m.drop_first();
        lemma_find_key(t, k);
        assert forall|j: int| 0 <= j < find_key(m, k) implies (#[trigger] m[j]).0 != k by {
            if j > 0 {
                assert(m[j] == t[j - 1]);
            }
        }
    }
}

pub proof fn lemma_find_key_same_keys<V, W>(a: Seq<(Seq<char>, V)>, b: Seq<(Seq<char>, W)>, k: Seq<char>)
    requires
        a.len() == b.len(),
        forall|i: int| 0 <= i < a.len() ==> (#[trigger] a[i]).0 == b[i].0,
    ensures
        find_key(a, k) == find_key(b, k),
    decreases a.len(),
{
    if a.len() > 0 {
        assert(a[0].0 == b[0].0);
        let (ta, tb) = (a.drop_first(), b.drop_first());
        assert forall|i: int| 0 <= i < ta.len() implies (#[trigger] ta[i]).0 == tb[i].0 by {
            assert(ta[i] == a[i + 1]);
            assert(tb[i] == b[i + 1]);
        }
        lemma_find_key_same_keys(ta, tb, k);
    }
}

/// Binding a key keeps the keys unique.
pub proof fn lemma_put_unique<V>(m: Seq<(Seq<char>, V)>, k: Seq<char>, v: V)
    requires
        keys_unique(m),
    ensures
        keys_unique(put(m, k, v)),
        put(m, k, v).len() <= m.len() + 1,
{
    lemma_find_key(m, k);
}

/// Binding one key to corresponding values keeps entries and literals in step.
pub proof fn lemma_put_denotes(
    e: Seq<(Seq<char>, Types)>,
    m: Seq<(Seq<char>, Lit)>,
    k: Seq<char>,
    t: Types,
    l: Lit,
)
    requires
        entries_denote(e, m),
        denotes(t, l),
    ensures
        entries_denote(put(e, k, t), put(m, k, l)),
{
    lemma_find_key_same_keys(e, m, k);
    let (pe, pm) = (put(e, k, t), put(m, k, l));
    assert forall|i: int| 0 <= i < pe.len() implies (#[trigger] pe[i]).0 == pm[i].0 && denotes(pe[i].1, pm[i].1) by {
        assert(e[i].0 == m[i].0 || i >= e.len());
    }
}

/// A record: field names bound to values, each name at most once, in the
/// order in which the names were first bound.
#[derive(Debug, PartialEq)]
pub struct Entity {
    entries: Vec<(String, Types)>,
}

impl Entity {
    /// The entries as (name, value) pairs.
    pub closed spec fn view(&self) -> Seq<(Seq<char>, Types)> {
        self.entries@.map_values(|p: (String, Types)| (p.0@, p.1))
    }

    pub open spec fn wf(&self) -> bool {
        keys_unique(self.view())
    }

    /// An entity with no fields.
    pub fn new() -> (r: Entity)
        ensures
            r.wf(),
            r.view() == Seq::<(Seq<char>, Types)>::empty(),
    {
        let r = Entity { entries: Vec::new() };
        assert(r.view() =~= Seq::<(Seq<char>, Types)>::empty());
        r
    }

    /// The fields, as (name, value) pairs.
    pub fn into_entries(self) -> (r: Vec<(String, Types)>)
        ensures
            r@.map_values(|p: (String, Types)| (p.0@, p.1)) == self.view(),
    {
        self.entries
    }

    /// Number of fields.
    pub fn len(&self) -> (r: usize)
        ensures
            r == self.view().len(),
    {
        self.entries.len()
    }

    /// Binds `key` to `value`, replacing the value it had.
    pub fn insert(&mut self, key: String, value: Types)
        requires
            old(self).wf(),
        ensures
            final(self).wf(),
            final(self).view() == put(old(self).view(), key@, value),
    {
        let ghost m = self.view();
        proof {
            lemma_find_key(m, key@);
            lemma_put_unique(m, key@, value);
        }
        let n = self.entries.len();
        let mut i: usize = 0;
        while i < n
            invariant
                n == self.entries@.len(),
                m == self.view(),
                m == old(self).view(),
                keys_unique(put(m, key@, value)),
                i <= n,
                forall|j: int| 0 <= j < i ==> (#[trigger] m[j]).0 != key@,
            decreases n - i,
        {
            if self.entries[i].0 == key {
                assert(m[i as int].0 == key@);
                assert(find_key(m, key@) == i) by {
                    lemma_find_key(m, key@);
                    if find_key(m, key@) < i {
                        assert(m[find_key(m, key@) as int].0 == key@);
                    }
                }
                self.entries.set(i, (key, value));
                assert(self.view() =~= put(m, key@, value));
                return;
            }
            i = i + 1;
        }
        assert(find_key(m, key@) == n) by {
            lemma_find_key(m, key@);
            if find_key(m, key@) < n {
                assert(m[find_key(m, key@) as int].0 == key@);
            }
        }
        self.entries.push((key, value));
        assert(self.view() =~= put(m, key@, value));
    }
}

} // verus!
