//! Literal values: string literals with escapes, and the typing of bare
//! value tokens.

use vstd::prelude::*;
use crate::cursor::Cursor;
use crate::text::{message, string_of};
use crate::value::{Types, Lit, denotes};

verus! {

/// The character that an escape `\c` stands for.
pub open spec fn escaped(c: char) -> Option<char> {
    if c == 't' {
        Some('\t')
    } else if c == 'r' {
        Some('\r')
    } else if c == 'n' {
        Some('\n')
    } else if c == '\\' {
        Some('\\')
    } else if c == '"' {
        Some('"')
    } else {
        None
    }
}

/// Reads the rest of a string literal from position `i`, where `esc` says
/// whether a backslash came just before and `acc` holds what was decoded so
/// far: the decoded text and the position past the closing quote, or the
/// error message.
pub open spec fn str_lit(s: Seq<char>, i: int, esc: bool, acc: Seq<char>) -> Result<
    (Seq<char>, int),
    Seq<char>,
>
    decreases s.len() - i,
{
    if i < 0 || i >= s.len() {
        Err("Unterminated string"@)
    } else if esc {
        match escaped(s[i]) {
            Some(d) => str_lit(s, i + 1, false, acc.push(d)),
            None => Err("Invalid escape sequence \\"@.push(s[i])),
        }
    } else if s[i] == '"' {
        Ok((acc, i + 1))
    } else if s[i] == '\\' {
        str_lit(s, i + 1, true, acc)
    } else {
        str_lit(s, i + 1, false, acc.push(s[i]))
    }
}

/// Reads a string literal whose opening quote was just read.
pub fn read_str(chars: &mut Cursor) -> (r: Result<Types, String>)
    requires
        old(chars).wf(),
    ensures
        final(chars).wf(),
        final(chars).text() == old(chars).text(),
        match str_lit(old(chars).text(), old(chars).at(), false, Seq::empty()) {
            Ok((v, j)) => r == Ok::<Types, String>(Types::String(r->Ok_0->String_0)) && r->Ok_0->String_0@ == v
                && final(chars).at() == j,
            Err(e) => r is Err && r->Err_0@ == e,
        },
        r is Err && r->Err_0@ == "Unterminated string"@ ==> final(chars).at() == final(chars).text().len(),
{
    let ghost s = chars.text();
    let mut acc: Vec<char> = Vec::new();
    let mut esc = false;
    loop
        invariant
            chars.wf(),
            chars.text() == s,
            s == old(chars).text(),
            str_lit(s, chars.at(), esc, acc@) == str_lit(s, old(chars).at(), false, Seq::empty()),
        decreases s.len() - chars.pos,
    {
        match chars.next() {
            None => {
                return Err(String::from_str("Unterminated string"));
            },
            Some(c) => {
                if esc {
                    let d = if c == 't' {
                        '\t'
                    } else if c == 'r' {
                        '\r'
                    } else if c == 'n' {
                        '\n'
                    } else if c == '\\' {
                        '\\'
                    } else if c == '"' {
                        '"'
                    } else {
                        let v = vec![c];
                        proof {
                            reveal_strlit("");
                            assert(v@ =~= seq![c]);
                            assert("Invalid escape sequence \\"@ + v@ + ""@ =~= "Invalid escape sequence \\"@.push(c));
                            reveal_strlit("Invalid escape sequence \\");
                            reveal_strlit("Unterminated string");
                        }
                        return Err(message("Invalid escape sequence \\", &v, ""));
                    };
                    acc.push(d);
                    esc = false;
                } else if c == '"' {
                    return Ok(Types::String(string_of(&acc)));
                } else if c == '\\' {
                    esc = true;
                } else {
                    acc.push(c);
                }
            },
        }
    }
}

pub open spec fn is_digit(c: char) -> bool {
    '0' <= c && c <= '9'
}

/// Value of a digit.
pub open spec fn digit_value(c: char) -> int {
    (c as u32) as int - ('0' as u32) as int
}

/// Value of a run of decimal digits.
pub open spec fn digits_value(d: Seq<char>) -> int
    decreases d.len(),
{
    if d.len() == 0 {
        0
    } else {
        10 * digits_value(d.drop_last()) + digit_value(d.last())
    }
}

/// `t` without a leading `+` or `-`.
pub open spec fn unsigned_part(t: Seq<char>) -> Seq<char> {
    if t.len() > 0 && (t[0] == '+' || t[0] == '-') {
        t.drop_first()
    } else {
        t
    }
}

/// An optional sign, then one or more decimal digits.
pub open spec fn int_text(t: Seq<char>) -> bool {
    let d = unsigned_part(t);
    d.len() > 0 && forall|i: int| 0 <= i < d.len() ==> is_digit(#[trigger] d[i])
}

/// The integer that `t` reads as, where it is a decimal integer that fits
/// in `isize` (`str::parse::<isize>`).
pub open spec fn int_of(t: Seq<char>) -> Option<int> {
    if int_text(t) {
        let m = digits_value(unsigned_part(t));
        let v = if t[0] == '-' { -m } else { m };
        if isize::MIN <= v <= isize::MAX { Some(v) } else { None }
    } else {
        None
    }
}

proof fn lemma_digits_nonneg(d: Seq<char>)
    requires
        forall|i: int| 0 <= i < d.len() ==> is_digit(#[trigger] d[i]),
    ensures
        digits_value(d) >= 0,
    decreases d.len(),
{
    if d.len() > 0 {
        lemma_digits_nonneg(d.drop_last());
    }
}

/// Parses a decimal integer that fits in `isize`.
pub fn parse_int(t: &Vec<char>) -> (r: Option<isize>)
    ensures
        r matches Some(v) ==> int_of(t@) == Some(v as int),
        r is None ==> int_of(t@) is None,
{
    let n = t.len();
    if n == 0 {
        return None;
    }
    let neg = t[0] == '-';
    let start: usize = if t[0] == '+' || t[0] == '-' { 1 } else { 0 };
    let ghost d = unsigned_part(t@);
    assert(d =~= t@.subrange(start as int, n as int));
    if start == n {
        return None;
    }
    let cap: u128 = 0x1_0000_0000_0000_0001;
    let mut mag: u128 = 0;
    let mut i: usize = start;
    while i < n
        invariant
            start <= i <= n == t@.len(),
            d == unsigned_part(t@),
            cap == 0x1_0000_0000_0000_0001u128,
            d == t@.subrange(start as int, n as int),
            forall|k: int| start <= k < i ==> is_digit(#[trigger] t@[k]),
            mag <= cap,
            mag == cap <==> digits_value(t@.subrange(start as int, i as int)) >= cap,
            mag < cap ==> mag == digits_value(t@.subrange(start as int, i as int)),
        decreases n - i,
    {
        let c = t[i];
        if !('0' <= c && c <= '9') {
            assert(d[i - start] == t@[i as int]);
            assert(!is_digit(d[i - start]));
            return None;
        }
        let ghost p = t@.subrange(start as int, i as int);
        let ghost q = t@.subrange(start as int, i + 1);
        assert(q.drop_last() =~= p);
        let dv = (c as u32 - '0' as u32) as u128;
        proof {
            assert forall|k: int| 0 <= k < p.len() implies is_digit(#[trigger] p[k]) by {
                assert(p[k] == t@[start + k]);
            }
            lemma_digits_nonneg(p);
            assert(digits_value(q) == 10 * digits_value(p) + dv);
            assert(mag * 10 <= 0x1_0000_0000_0000_0001u128 * 10) by (nonlinear_arith)
                requires
                    mag <= 0x1_0000_0000_0000_0001u128,
            ;
        }
        if mag == cap || mag * 10 + dv >= cap {
            mag = cap;
        } else {
            mag = mag * 10 + dv;
        }
        i = i + 1;
    }
    assert(t@.subrange(start as int, n as int) == d);
    assert(int_text(t@)) by {
        assert forall|k: int| 0 <= k < d.len() implies is_digit(#[trigger] d[k]) by {
            assert(d[k] == t@[start + k]);
        }
    }
    if mag == cap {
        return None;
    }
    let v: i128 = if neg { -(mag as i128) } else { mag as i128 };
    if v < isize::MIN as i128 || v > isize::MAX as i128 {
        return None;
    }
    Some(v as isize)
}


/// `c` is the lower-case ASCII letter `w` in either case.
pub open spec fn ci_eq(c: char, w: char) -> bool {
    c == w || (c as u32) + 32 == (w as u32)
}

/// `u` spells the lower-case word `w`, ignoring ASCII case.
pub open spec fn word_ci(u: Seq<char>, w: Seq<char>) -> bool {
    u.len() == w.len() && forall|i: int| 0 <= i < u.len() ==> ci_eq(#[trigger] u[i], w[i])
}

/// Length of the run of digits and `.` from position `i`.
pub open spec fn mantissa_len(u: Seq<char>, i: int) -> nat
    decreases u.len() - i,
{
    if 0 <= i < u.len() && (is_digit(u[i]) || u[i] == '.') {
        1 + mantissa_len(u, i + 1)
    } else {
        0
    }
}

/// Digits with at most one `.` among them, and at least one digit.
pub open spec fn mantissa(m: Seq<char>) -> bool {
    (exists|i: int| 0 <= i < m.len() && is_digit(#[trigger] m[i])) && forall|i: int, j: int|
        0 <= i < m.len() && 0 <= j < m.len() && m[i] == '.' && m[j] == '.' ==> i == j
}

proof fn lemma_mantissa_len_bound(u: Seq<char>, i: int)
    requires
        0 <= i <= u.len(),
    ensures
        i + mantissa_len(u, i) <= u.len(),
    decreases u.len() - i,
{
    if i < u.len() {
        lemma_mantissa_len_bound(u, i + 1);
    }
}

/// A decimal number: a mantissa, then optionally `e` or `E` and a signed
/// integer exponent.
pub open spec fn number_text(u: Seq<char>) -> bool {
    let p = mantissa_len(u, 0) as int;
    mantissa(u.subrange(0, p)) && (p == u.len() || ((u[p] == 'e' || u[p] == 'E') && int_text(
        u.subrange(p + 1, u.len() as int),
    )))
}

/// The texts that `str::parse::<f64>` accepts: an optional sign, then
/// `inf`, `infinity` or `nan` in any case, or a decimal number.
pub open spec fn float_text(t: Seq<char>) -> bool {
    let u = unsigned_part(t);
    word_ci(u, "inf"@) || word_ci(u, "infinity"@) || word_ci(u, "nan"@) || number_text(u)
}

/// The characters of `v` from `a` up to `b`.
pub fn slice(v: &Vec<char>, a: usize, b: usize) -> (r: Vec<char>)
    requires
        a <= b <= v@.len(),
    ensures
        r@ == v@.subrange(a as int, b as int),
{
    let mut r: Vec<char> = Vec::new();
    let mut k: usize = a;
    while k < b
        invariant
            a <= k <= b <= v@.len(),
            r@ == v@.subrange(a as int, k as int),
        decreases b - k,
    {
        r.push(v[k]);
        k = k + 1;
        assert(r@ =~= v@.subrange(a as int, k as int));
    }
    r
}

/// `v` without a leading sign.
pub fn drop_sign(v: &Vec<char>) -> (r: Vec<char>)
    ensures
        r@ == unsigned_part(v@),
{
    if v.len() > 0 && (v[0] == '+' || v[0] == '-') {
        let r = slice(v, 1, v.len());
        assert(r@ =~= v@.drop_first());
        r
    } else {
        slice(v, 0, v.len())
    }
}

/// Whether `v` is an optional sign followed by one or more digits.
pub fn is_int_text(v: &Vec<char>) -> (r: bool)
    ensures
        r == int_text(v@),
{
    let d = drop_sign(v);
    if d.len() == 0 {
        return false;
    }
    let mut k: usize = 0;
    while k < d.len()
        invariant
            k <= d@.len(),
            d@ == unsigned_part(v@),
            forall|j: int| 0 <= j < k ==> is_digit(#[trigger] d@[j]),
        decreases d@.len() - k,
    {
        if !('0' <= d[k] && d[k] <= '9') {
            assert(!is_digit(d@[k as int]));
            return false;
        }
        k = k + 1;
    }
    true
}

/// Whether `u` spells the lower-case ASCII word `w`, in any case.
pub fn is_word_ci(u: &Vec<char>, w: &str) -> (r: bool)
    ensures
        r == word_ci(u@, w@),
{
    let wc = crate::text::chars_of(w);
    if u.len() != wc.len() {
        return false;
    }
    let mut k: usize = 0;
    while k < u.len()
        invariant
            k <= u@.len() == wc@.len(),
            wc@ == w@,
            forall|j: int| 0 <= j < k ==> ci_eq(#[trigger] u@[j], wc@[j]),
        decreases u@.len() - k,
    {
        if !(u[k] == wc[k] || (u[k] as u32) as u64 + 32 == (wc[k] as u32) as u64) {
            assert(!ci_eq(u@[k as int], wc@[k as int]));
            return false;
        }
        k = k + 1;
    }
    true
}

/// Whether `u` is a decimal number with an optional exponent.
pub fn is_number(u: &Vec<char>) -> (r: bool)
    ensures
        r == number_text(u@),
{
    let n = u.len();
    let ghost p = mantissa_len(u@, 0) as int;
    let mut i: usize = 0;
    let mut seen_digit = false;
    let mut seen_dot = false;
    let mut dot_at: usize = 0;
    while i < n && (('0' <= u[i] && u[i] <= '9') || u[i] == '.')
        invariant
            i <= n == u@.len(),
            p == mantissa_len(u@, 0),
            i + mantissa_len(u@, i as int) == p,
            seen_digit <==> exists|k: int| 0 <= k < i && is_digit(#[trigger] u@[k]),
            seen_dot ==> dot_at < i && u@[dot_at as int] == '.',
            seen_dot ==> forall|k: int| 0 <= k < i && u@[k] == '.' ==> k == dot_at,
            !seen_dot ==> forall|k: int| 0 <= k < i ==> u@[k] != '.',
        decreases n - i,
    {
        if u[i] == '.' {
            if seen_dot {
                proof {
                    assert(mantissa_len(u@, i as int) == 1 + mantissa_len(u@, i + 1));
                    lemma_mantissa_len_bound(u@, 0);
                    let m = u@.subrange(0, p);
                    assert(m[dot_at as int] == '.' && m[i as int] == '.');
                }
                return false;
            }
            seen_dot = true;
            dot_at = i;
        } else {
            assert(is_digit(u@[i as int]));
            seen_digit = true;
        }
        i = i + 1;
    }
    assert(mantissa_len(u@, i as int) == 0);
    let ghost m = u@.subrange(0, p);
    if !seen_digit {
        assert forall|k: int| 0 <= k < m.len() implies !is_digit(#[trigger] m[k]) by {
            assert(m[k] == u@[k]);
        }
        return false;
    }
    assert(mantissa(m)) by {
        let k = choose|k: int| 0 <= k < i && is_digit(#[trigger] u@[k]);
        assert(m[k] == u@[k]);
    }
    if i == n {
        return true;
    }
    if u[i] != 'e' && u[i] != 'E' {
        return false;
    }
    let rest = slice(u, i + 1, n);
    is_int_text(&rest)
}

/// Whether `t` reads as a 64-bit float (`str::parse::<f64>` succeeds).
pub fn is_float_text(t: &Vec<char>) -> (r: bool)
    ensures
        r == float_text(t@),
{
    let u = drop_sign(t);
    is_word_ci(&u, "inf") || is_word_ci(&u, "infinity") || is_word_ci(&u, "nan") || is_number(&u)
}


/// The UUID that `uuid::Uuid::parse_str` reads from a text, as its 128-bit
/// number, or `None` where it refuses the text.
pub uninterp spec fn uuid_of(s: Seq<char>) -> Option<u128>;

/// What the UUID parser makes of a text: it reads only texts of 32, 36, 38
/// or 45 characters (simple, hyphenated, braced, URN), all of them ASCII.
pub open spec fn uuid_text(s: Seq<char>) -> Option<u128> {
    if s.len() == 32 || s.len() == 36 || s.len() == 38 || s.len() == 45 {
        uuid_of(s)
    } else {
        None
    }
}

/// Relies on `uuid::Uuid::parse_str` (with `Uuid::as_u128`): its result
/// depends on the text alone, and it refuses every text whose length in
/// bytes is not 32, 36, 38 or 45; a text it reads is ASCII, so its length
/// in characters is the same.
#[verifier::external_body]
fn parse_uuid(s: &String) -> (r: Option<u128>)
    ensures
        r == uuid_text(s@),
        r == uuid_of(s@),
{
    uuid::Uuid::parse_str(s).ok().map(|u| u.as_u128())
}

/// Three characters, the first and the last a straight quote.
pub open spec fn char_text(t: Seq<char>) -> bool {
    t.len() == 3 && t[0] == '\'' && t[2] == '\''
}

/// `nil` in any ASCII case.
pub open spec fn nil_text(t: Seq<char>) -> bool {
    word_ci(t, "nil"@)
}

/// The literal that a bare value token stands for, given what the UUID
/// parser made of it: the first that fits of an integer, a float, a UUID,
/// a boolean, nil and a quoted character.
pub open spec fn infer(t: Seq<char>, uuid: Option<u128>) -> Result<Lit, Seq<char>> {
    if int_of(t) is Some {
        Ok(Lit::Integer(int_of(t)->0))
    } else if float_text(t) {
        Ok(Lit::Float(t))
    } else if uuid is Some {
        Ok(Lit::Uuid(uuid->0))
    } else if t == "true"@ {
        Ok(Lit::Boolean(true))
    } else if t == "false"@ {
        Ok(Lit::Boolean(false))
    } else if nil_text(t) {
        Ok(Lit::Nil)
    } else if char_text(t) {
        Ok(Lit::Char(t[1]))
    } else {
        Err("Value Type could not be created from "@ + t)
    }
}

/// `r` is the outcome that `s` describes.
pub open spec fn outcome(r: Result<Types, String>, s: Result<Lit, Seq<char>>) -> bool {
    match s {
        Ok(l) => r is Ok && denotes(r->Ok_0, l),
        Err(e) => r is Err && r->Err_0@ == e,
    }
}

/// Whether `v` holds the same characters as `w`.
pub(crate) fn same_text(v: &Vec<char>, w: &str) -> (r: bool)
    ensures
        r == (v@ == w@),
{
    let wc = crate::text::chars_of(w);
    if v.len() != wc.len() {
        return false;
    }
    let mut k: usize = 0;
    while k < v.len()
        invariant
            k <= v@.len() == wc@.len(),
            wc@ == w@,
            forall|j: int| 0 <= j < k ==> v@[j] == wc@[j],
        decreases v@.len() - k,
    {
        if v[k] != wc[k] {
            return false;
        }
        k = k + 1;
    }
    assert(v@ =~= wc@);
    true
}

/// Types the bare value token `t`, where `uuid` is what the UUID parser
/// made of it.
pub fn infer_value(t: &Vec<char>, uuid: Option<u128>) -> (r: Result<Types, String>)
    ensures
        outcome(r, infer(t@, uuid)),
{
    if let Some(v) = parse_int(t) {
        return Ok(Types::Integer(v));
    }
    if is_float_text(t) {
        return Ok(Types::Float(string_of(t)));
    }
    if let Some(u) = uuid {
        return Ok(Types::Uuid(u));
    }
    if same_text(t, "true") {
        return Ok(Types::Boolean(true));
    }
    if same_text(t, "false") {
        return Ok(Types::Boolean(false));
    }
    if is_word_ci(t, "nil") {
        return Ok(Types::Nil);
    }
    if t.len() == 3 && t[0] == '\'' && t[2] == '\'' {
        return Ok(Types::Char(t[1]));
    }
    proof {
        reveal_strlit("");
    }
    let r = message("Value Type could not be created from ", t, "");
    assert(r@ =~= "Value Type could not be created from "@ + t@);
    Err(r)
}

/// Types the bare value token `t`.
pub fn type_token(t: &Vec<char>) -> (r: Result<Types, String>)
    ensures
        outcome(r, infer(t@, uuid_text(t@))),
{
    let s = string_of(t);
    let uuid = parse_uuid(&s);
    infer_value(t, uuid)
}


/// A string literal, where it ends, ends past where it starts.
pub proof fn lemma_str_lit_advances(s: Seq<char>, i: int, esc: bool, acc: Seq<char>)
    ensures
        str_lit(s, i, esc, acc) matches Ok((_, j)) ==> j > i,
    decreases s.len() - i,
{
    if 0 <= i < s.len() {
        lemma_str_lit_advances(s, i + 1, false, acc.push(s[i]));
        lemma_str_lit_advances(s, i + 1, true, acc);
        if let Some(d) = escaped(s[i]) {
            lemma_str_lit_advances(s, i + 1, false, acc.push(d));
        }
    }
}

} // verus!
