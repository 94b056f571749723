//! A forward-only cursor over the characters of a query.

use vstd::prelude::*;
use crate::text::{is_ws, is_name_char, name_char, is_whitespace, chars_of, string_of, skip_ws_from};

verus! {

/// The character classes that a scan can collect.
#[derive(Clone, Copy, Debug, PartialEq, Eq)]
pub enum Scan {
    /// Anything but white space.
    Word,
    /// Letters, digits and `_`.
    Name,
    /// Anything but white space and `,`.
    Token,
}

/// Whether a scan of kind `k` collects `c`.
pub open spec fn accepts(k: Scan, c: char) -> bool {
    match k {
        Scan::Word => !is_ws(c),
        Scan::Name => is_name_char(c),
        Scan::Token => !is_ws(c) && c != ',',
    }
}

/// Length of the longest run of characters from `i` on that `k` collects.
pub open spec fn run_len(s: Seq<char>, i: int, k: Scan) -> nat
    decreases s.len() - i,
{
    if 0 <= i < s.len() && accepts(k, s[i]) {
        1 + run_len(s, i + 1, k)
    } else {
        0
    }
}

/// The run that a scan of kind `k` collects from position `i`.
pub open spec fn run(s: Seq<char>, i: int, k: Scan) -> Seq<char> {
    s.subrange(i, i + run_len(s, i, k))
}

/// Position after a scan from `i`: past the run and past the one character
/// that stopped it, where there is one.
pub open spec fn after_run(s: Seq<char>, i: int, k: Scan) -> int {
    let e = i + run_len(s, i, k);
    if e < s.len() { e + 1 } else { e }
}

/// Characters of a query and the position of the next one to be read.
pub struct Cursor {
    pub chars: Vec<char>,
    pub pos: usize,
}

impl Cursor {
    pub open spec fn text(&self) -> Seq<char> {
        self.chars@
    }

    pub open spec fn at(&self) -> int {
        self.pos as int
    }

    pub open spec fn wf(&self) -> bool {
        self.pos <= self.chars@.len()
    }

    /// Reads the next character, or `None` at the end.
    pub fn next(&mut self) -> (r: Option<char>)
        requires
            old(self).wf(),
        ensures
            final(self).wf(),
            final(self).text() == old(self).text(),
            old(self).at() < old(self).text().len() ==> r == Some(old(self).text()[old(self).at()])
                && final(self).at() == old(self).at() + 1,
            old(self).at() >= old(self).text().len() ==> r is None && final(self).at() == old(self).at(),
    {
        if self.pos < self.chars.len() {
            let c = self.chars[self.pos];
            self.pos = self.pos + 1;
            Some(c)
        } else {
            None
        }
    }

    /// Skips white space.
    pub fn skip_whitespace(&mut self)
        requires
            old(self).wf(),
        ensures
            final(self).wf(),
            final(self).text() == old(self).text(),
            final(self).at() == skip_ws_from(old(self).text(), old(self).at()),
    {
        while self.pos < self.chars.len() && is_whitespace(self.chars[self.pos])
            invariant
                self.wf(),
                self.text() == old(self).text(),
                old(self).at() <= self.at(),
                skip_ws_from(self.text(), self.at()) == skip_ws_from(old(self).text(), old(self).at()),
            decreases self.chars@.len() - self.pos,
        {
            self.pos = self.pos + 1;
        }
    }

    /// Collects the run of characters that `k` accepts, then reads and drops
    /// the character that ended it, where there is one.
    pub fn take_while(&mut self, k: Scan) -> (r: String)
        requires
            old(self).wf(),
        ensures
            final(self).wf(),
            final(self).text() == old(self).text(),
            r@ == run(old(self).text(), old(self).at(), k),
            final(self).at() == after_run(old(self).text(), old(self).at(), k),
    {
        let ghost s = self.chars@;
        let ghost start = self.pos as int;
        let mut out: Vec<char> = Vec::new();
        loop
            invariant
                self.wf(),
                self.text() == s,
                s == old(self).text(),
                start == old(self).at(),
                start <= self.at(),
                out@ == s.subrange(start, self.at()),
                start + run_len(s, start, k) == self.at() + run_len(s, self.at(), k),
            decreases s.len() - self.pos,
        {
            if self.pos >= self.chars.len() {
                assert(run_len(s, self.at(), k) == 0);
                assert(out@ =~= run(s, start, k));
                return string_of(&out);
            }
            let c = self.chars[self.pos];
            let ok = match k {
                Scan::Word => !is_whitespace(c),
                Scan::Name => name_char(c),
                Scan::Token => !is_whitespace(c) && c != ',',
            };
            assert(ok == accepts(k, c));
            self.pos = self.pos + 1;
            if !ok {
                assert(run_len(s, self.at() - 1, k) == 0);
                assert(out@ =~= run(s, start, k));
                return string_of(&out);
            }
            out.push(c);
            assert(out@ =~= s.subrange(start, self.at()));
        }
    }
}

/// A cursor at the start of `wql`.
pub fn tokenize(wql: &str) -> (r: Cursor)
    ensures
        r.wf(),
        r.text() == wql@,
        r.at() == 0,
{
    Cursor { chars: chars_of(wql), pos: 0 }
}


/// A scan from inside the text ends inside it.
pub proof fn lemma_after_run_bound(s: Seq<char>, i: int, k: Scan)
    requires
        0 <= i <= s.len(),
    ensures
        i <= i + run_len(s, i, k) <= s.len(),
        i <= after_run(s, i, k) <= s.len(),
    decreases s.len() - i,
{
    if i < s.len() {
        lemma_after_run_bound(s, i + 1, k);
    }
}


/// A run that `k` accepts from `i` up to `j`, stopped at `j`, has length
/// `j - i`.
pub proof fn lemma_run_len_exact(s: Seq<char>, i: int, j: int, k: Scan)
    requires
        0 <= i <= j <= s.len(),
        forall|m: int| i <= m < j ==> accepts(k, #[trigger] s[m]),
        j == s.len() || !accepts(k, s[j]),
    ensures
        run_len(s, i, k) == j - i,
    decreases j - i,
{
    if i < j {
        lemma_run_len_exact(s, i + 1, j, k);
    }
}

} // verus!
