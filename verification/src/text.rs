//! Character-level helpers shared by the parsers and renderers.

use vstd::prelude::*;
use vstd::string::*;

verus! {

/// A lowercase ASCII letter.
pub open spec fn is_lower(c: char) -> bool {
    'a' <= c && c <= 'z'
}

/// An ASCII decimal digit.
pub open spec fn is_digit(c: char) -> bool {
    '0' <= c && c <= '9'
}

/// An ASCII letter or digit.
pub open spec fn is_alnum(c: char) -> bool {
    is_lower(c) || is_digit(c) || ('A' <= c && c <= 'Z')
}

/// `String::push`: appends one character.
#[verifier::external_body]
pub(crate) fn push_char(s: &mut String, c: char)
    ensures
        final(s)@ == old(s)@.push(c),
{
    s.push(c);
}

/// The characters of `s`, in order.
pub fn chars_of(s: &str) -> (v: Vec<char>)
    ensures
        v@ == s@,
{
    let n = s.unicode_len();
    let mut v: Vec<char> = Vec::new();
    let mut i: usize = 0;
    while i < n
        invariant
            n == s@.len(),
            i <= n,
            v@ == s@.subrange(0, i as int),
        decreases n - i,
    {
        v.push(s.get_char(i));
        i = i + 1;
    }
    v
}

/// The string made of `v[lo..hi]`.
pub fn string_of_range(v: &Vec<char>, lo: usize, hi: usize) -> (s: String)
    requires
        lo <= hi <= v@.len(),
    ensures
        s@ == v@.subrange(lo as int, hi as int),
{
    let mut s = String::new();
    let mut i: usize = lo;
    while i < hi
        invariant
            lo <= i <= hi <= v@.len(),
            s@ == v@.subrange(lo as int, i as int),
        decreases hi - i,
    {
        push_char(&mut s, v[i]);
        i = i + 1;
    }
    s
}

/// The string made of all of `v`.
pub fn string_of(v: &Vec<char>) -> (s: String)
    ensures
        s@ == v@,
{
    let s = string_of_range(v, 0, v.len());
    assert(v@.subrange(0, v@.len() as int) =~= v@);
    s
}

/// Appends `t` to `s`.
pub fn append(s: &mut String, t: &str)
    ensures
        final(s)@ == old(s)@ + t@,
{
    s.append(t);
}

/// Whether two character sequences are equal.
pub fn chars_eq(a: &Vec<char>, b: &Vec<char>) -> (r: bool)
    ensures
        r == (a@ == b@),
{
    if a.len() != b.len() {
        return false;
    }
    let mut i: usize = 0;
    while i < a.len()
        invariant
            a@.len() == b@.len(),
            i <= a@.len(),
            forall|j: int| 0 <= j < i ==> a@[j] == b@[j],
        decreases a@.len() - i,
    {
        if a[i] != b[i] {
            return false;
        }
        i = i + 1;
    }
    assert(a@ =~= b@);
    true
}

/// Whether two strings are equal.
pub fn str_eq(a: &str, b: &str) -> (r: bool)
    ensures
        r == (a@ == b@),
{
    let av = chars_of(a);
    let bv = chars_of(b);
    chars_eq(&av, &bv)
}


/// Index of the first `c` in `s` at or after `i`, or -1.
pub open spec fn find_char_from(s: Seq<char>, c: char, i: int) -> int
    decreases s.len() - i,
{
    if i < 0 || i >= s.len() {
        -1
    } else if s[i] == c {
        i
    } else {
        find_char_from(s, c, i + 1)
    }
}

/// Index of the first `c` in `s`, or -1.
pub open spec fn find_char(s: Seq<char>, c: char) -> int {
    find_char_from(s, c, 0)
}

pub proof fn lemma_find_char_from_bounds(s: Seq<char>, c: char, i: int)
    ensures
        find_char_from(s, c, i) == -1 || (0 <= i <= find_char_from(s, c, i) < s.len()
            && s[find_char_from(s, c, i)] == c
            && forall|j: int| i <= j < find_char_from(s, c, i) ==> s[j] != c),
        find_char_from(s, c, i) == -1 ==> forall|j: int| 0 <= i <= j < s.len() ==> s[j] != c,
    decreases s.len() - i,
{
    if i < 0 || i >= s.len() {
    } else if s[i] == c {
    } else {
        lemma_find_char_from_bounds(s, c, i + 1);
    }
}

/// First index of `c` in `v` at or after `start`.
pub fn find_char_in(v: &Vec<char>, c: char, start: usize) -> (r: Option<usize>)
    requires
        start <= v@.len(),
    ensures
        match r {
            Some(k) => k as int == find_char_from(v@, c, start as int),
            None => find_char_from(v@, c, start as int) == -1,
        },
{
    let mut i = start;
    while i < v.len()
        invariant
            start <= i <= v@.len(),
            find_char_from(v@, c, start as int) == find_char_from(v@, c, i as int),
        decreases v@.len() - i,
    {
        if v[i] == c {
            return Some(i);
        }
        i = i + 1;
    }
    None
}

/// Whether `p` occurs in `s` starting at index `i`.
pub open spec fn matches_at(s: Seq<char>, p: Seq<char>, i: int) -> bool {
    0 <= i && i + p.len() <= s.len() && s.subrange(i, i + p.len()) == p
}

/// Index of the first occurrence of the non-empty `p` in `s` at or after `i`, or -1.
pub open spec fn find_str_from(s: Seq<char>, p: Seq<char>, i: int) -> int
    decreases s.len() + 1 - i,
{
    if i < 0 || i + p.len() > s.len() {
        -1
    } else if matches_at(s, p, i) {
        i
    } else {
        find_str_from(s, p, i + 1)
    }
}

/// Whether `p` occurs somewhere in `s`.
pub open spec fn contains_seq(s: Seq<char>, p: Seq<char>) -> bool {
    exists|i: int| matches_at(s, p, i)
}

pub proof fn lemma_find_str_from(s: Seq<char>, p: Seq<char>, i: int)
    requires
        0 <= i,
    ensures
        find_str_from(s, p, i) == -1 || (i <= find_str_from(s, p, i) && matches_at(
            s,
            p,
            find_str_from(s, p, i),
        ) && forall|j: int| i <= j < find_str_from(s, p, i) ==> !matches_at(s, p, j)),
        find_str_from(s, p, i) == -1 ==> forall|j: int| i <= j ==> !matches_at(s, p, j),
    decreases s.len() + 1 - i,
{
    if i + p.len() > s.len() {
    } else if matches_at(s, p, i) {
    } else {
        lemma_find_str_from(s, p, i + 1);
    }
}

/// Whether `v[i..]` starts with `p`.
pub fn matches_at_exec(v: &Vec<char>, p: &Vec<char>, i: usize) -> (r: bool)
    ensures
        r == matches_at(v@, p@, i as int),
{
    if i > v.len() || p.len() > v.len() - i {
        return false;
    }
    let mut k: usize = 0;
    while k < p.len()
        invariant
            i + p@.len() <= v.len(),
            k <= p@.len(),
            forall|j: int| 0 <= j < k ==> v@[i + j] == p@[j],
        decreases p@.len() - k,
    {
        assert(i + k < v@.len());
        if v[i + k] != p[k] {
            assert(v@.subrange(i as int, i + p@.len())[k as int] != p@[k as int]);
            return false;
        }
        k = k + 1;
    }
    assert(v@.subrange(i as int, i + p@.len()) =~= p@);
    true
}

/// First index of the non-empty `p` in `v` at or after `start`.
pub fn find_str_in(v: &Vec<char>, p: &Vec<char>, start: usize) -> (r: Option<usize>)
    requires
        p@.len() > 0,
    ensures
        match r {
            Some(k) => k as int == find_str_from(v@, p@, start as int),
            None => find_str_from(v@, p@, start as int) == -1,
        },
{
    let mut i = start;
    while i < v.len() && p.len() <= v.len() - i
        invariant
            start <= i,
            find_str_from(v@, p@, start as int) == find_str_from(v@, p@, i as int),
        decreases v@.len() - i,
    {
        if matches_at_exec(v, p, i) {
            return Some(i);
        }
        i = i + 1;
    }
    None
}

/// Whether `s` contains `p`.
pub fn contains_str(s: &Vec<char>, p: &Vec<char>) -> (r: bool)
    requires
        p@.len() > 0,
    ensures
        r == contains_seq(s@, p@),
{
    proof {
        lemma_find_str_from(s@, p@, 0);
    }
    match find_str_in(s, p, 0) {
        Some(_) => true,
        None => false,
    }
}

/// Whether `c` is white space in the sense of `char::is_whitespace`.
pub open spec fn is_ws(c: char) -> bool {
    ('\u{9}' <= c && c <= '\u{d}') || c == ' ' || c == '\u{85}' || c == '\u{a0}' || c
        == '\u{1680}' || ('\u{2000}' <= c && c <= '\u{200a}') || c == '\u{2028}' || c
        == '\u{2029}' || c == '\u{202f}' || c == '\u{205f}' || c == '\u{3000}'
}

pub fn is_ws_exec(c: char) -> (r: bool)
    ensures
        r == is_ws(c),
{
    ('\u{9}' <= c && c <= '\u{d}') || c == ' ' || c == '\u{85}' || c == '\u{a0}' || c
        == '\u{1680}' || ('\u{2000}' <= c && c <= '\u{200a}') || c == '\u{2028}' || c
        == '\u{2029}' || c == '\u{202f}' || c == '\u{205f}' || c == '\u{3000}'
}

/// First index at or after `i` that is not white space (or the length).
pub open spec fn skip_ws_from(s: Seq<char>, i: int) -> int
    decreases s.len() - i,
{
    if i < 0 || i >= s.len() {
        i
    } else if is_ws(s[i]) {
        skip_ws_from(s, i + 1)
    } else {
        i
    }
}

/// One past the last index below `j` that is not white space (or 0).
pub open spec fn back_ws_to(s: Seq<char>, j: int) -> int
    decreases j,
{
    if j <= 0 || j > s.len() {
        if j > s.len() { s.len() as int } else { 0 }
    } else if is_ws(s[j - 1]) {
        back_ws_to(s, j - 1)
    } else {
        j
    }
}

/// `str::trim`: `s` without leading and trailing white space.
pub open spec fn trim(s: Seq<char>) -> Seq<char> {
    let a = skip_ws_from(s, 0);
    let b = back_ws_to(s, s.len() as int);
    if a < b {
        s.subrange(a, b)
    } else {
        Seq::empty()
    }
}

/// Bounds `(a, b)` with `trim(v[lo..hi]) == v[a..b]`.
pub fn trim_bounds(v: &Vec<char>, lo: usize, hi: usize) -> (r: (usize, usize))
    requires
        lo <= hi <= v@.len(),
    ensures
        lo <= r.0 <= r.1 <= hi,
        v@.subrange(r.0 as int, r.1 as int) == trim(v@.subrange(lo as int, hi as int)),
{
    let ghost s = v@.subrange(lo as int, hi as int);
    let mut a = lo;
    while a < hi && is_ws_exec(v[a])
        invariant
            lo <= a <= hi <= v@.len(),
            s == v@.subrange(lo as int, hi as int),
            skip_ws_from(s, 0) == skip_ws_from(s, a - lo),
            forall|k: int| 0 <= k < a - lo ==> is_ws(#[trigger] s[k]),
        decreases hi - a,
    {
        a = a + 1;
    }
    assert(skip_ws_from(s, 0) == a - lo);
    let mut b = hi;
    while b > a && is_ws_exec(v[b - 1])
        invariant
            lo <= a <= b <= hi <= v@.len(),
            s == v@.subrange(lo as int, hi as int),
            back_ws_to(s, s.len() as int) == back_ws_to(s, b - lo),
            forall|k: int| 0 <= k < a - lo ==> is_ws(#[trigger] s[k]),
        decreases b - a,
    {
        b = b - 1;
    }
    proof {
        if b > a {
            assert(back_ws_to(s, b - lo) == b - lo);
        } else {
            lemma_back_ws_all(s, b - lo, a - lo);
        }
        assert(v@.subrange(a as int, b as int) =~= s.subrange(a - lo, b - lo));
    }
    (a, b)
}

proof fn lemma_back_ws_all(s: Seq<char>, j: int, a: int)
    requires
        0 <= j <= a <= s.len(),
        a == skip_ws_from(s, 0),
        forall|k: int| 0 <= k < a ==> is_ws(s[k]),
    ensures
        back_ws_to(s, j) == 0,
    decreases j,
{
    if j > 0 {
        lemma_back_ws_all(s, j - 1, a);
    }
}

/// `str::trim`.
pub fn trim_str(s: &str) -> (r: String)
    ensures
        r@ == trim(s@),
{
    let v = chars_of(s);
    let (a, b) = trim_bounds(&v, 0, v.len());
    assert(v@.subrange(0, v@.len() as int) =~= v@);
    string_of_range(&v, a, b)
}


/// A line without its terminating carriage return, as `str::lines` yields it.
pub open spec fn strip_cr(l: Seq<char>) -> Seq<char> {
    if l.len() > 0 && l.last() == '\r' {
        l.drop_last()
    } else {
        l
    }
}

/// `str::lines` of `s[i..]`.
pub open spec fn lines_from(s: Seq<char>, i: int) -> Seq<Seq<char>>
    decreases s.len() - i,
{
    if i < 0 || i >= s.len() {
        Seq::empty()
    } else {
        let e = find_char_from(s, '\n', i);
        if e < 0 {
            seq![s.subrange(i, s.len() as int)]
        } else {
            proof {
                lemma_find_char_from_bounds(s, '\n', i);
            }
            seq![strip_cr(s.subrange(i, e))] + lines_from(s, e + 1)
        }
    }
}

/// `str::lines`.
pub open spec fn lines(s: Seq<char>) -> Seq<Seq<char>> {
    lines_from(s, 0)
}

/// The line starting at `i`: returns `(a, b, next)` with `v[a..b]` the line
/// and `next` the start of the following one.
pub fn line_at(v: &Vec<char>, i: usize) -> (r: (usize, usize, usize))
    requires
        i < v@.len(),
    ensures
        i <= r.0 <= r.1 <= v@.len(),
        i < r.2 <= v@.len(),
        lines_from(v@, i as int) == seq![v@.subrange(r.0 as int, r.1 as int)] + lines_from(
            v@,
            r.2 as int,
        ),
{
    proof {
        lemma_find_char_from_bounds(v@, '\n', i as int);
    }
    match find_char_in(v, '\n', i) {
        None => {
            proof {
                assert(lines_from(v@, v@.len() as int) =~= Seq::<Seq<char>>::empty());
                assert(lines_from(v@, i as int) =~= seq![v@.subrange(i as int, v@.len() as int)]
                    + lines_from(v@, v@.len() as int));
            }
            (i, v.len(), v.len())
        },
        Some(e) => {
            let b = if e > i && v[e - 1] == '\r' {
                e - 1
            } else {
                e
            };
            proof {
                let l = v@.subrange(i as int, e as int);
                if e > i && v@[e - 1] == '\r' {
                    assert(strip_cr(l) =~= v@.subrange(i as int, b as int));
                } else {
                    assert(strip_cr(l) =~= v@.subrange(i as int, b as int));
                }
            }
            assert(e < v.len());
            (i, b, e + 1)
        },
    }
}

/// `s` with every `c` replaced by `r`, over the first `n` characters.
pub open spec fn replace_char_upto(s: Seq<char>, c: char, r: Seq<char>, n: int) -> Seq<char>
    decreases n,
{
    if n <= 0 || n > s.len() {
        Seq::empty()
    } else {
        replace_char_upto(s, c, r, n - 1) + (if s[n - 1] == c {
            r
        } else {
            seq![s[n - 1]]
        })
    }
}

/// `str::replace` of a character by a string.
pub open spec fn replace_char(s: Seq<char>, c: char, r: Seq<char>) -> Seq<char> {
    replace_char_upto(s, c, r, s.len() as int)
}

/// `s.replace(c, r)`.
pub fn replace_char_str(s: &str, c: char, r: &str) -> (out: String)
    ensures
        out@ == replace_char(s@, c, r@),
{
    let v = chars_of(s);
    let mut out = String::new();
    let mut i: usize = 0;
    while i < v.len()
        invariant
            i <= v@.len(),
            v@ == s@,
            out@ == replace_char_upto(s@, c, r@, i as int),
        decreases v@.len() - i,
    {
        if v[i] == c {
            append(&mut out, r);
        } else {
            push_char(&mut out, v[i]);
        }
        i = i + 1;
    }
    out
}

/// Whether `s` starts with `p`.
pub open spec fn starts_with(s: Seq<char>, p: Seq<char>) -> bool {
    p.len() <= s.len() && s.subrange(0, p.len() as int) == p
}

/// Whether `s` ends with `p`.
pub open spec fn ends_with(s: Seq<char>, p: Seq<char>) -> bool {
    p.len() <= s.len() && s.subrange(s.len() - p.len(), s.len() as int) == p
}

/// Whether `v` starts with `p`.
pub fn starts_with_exec(v: &Vec<char>, p: &Vec<char>) -> (r: bool)
    ensures
        r == starts_with(v@, p@),
{
    matches_at_exec(v, p, 0)
}

/// The ASCII-lowercase code of `c`.
pub open spec fn lower_code(c: char) -> u32 {
    if 'A' <= c && c <= 'Z' {
        (c as u32 + 32) as u32
    } else {
        c as u32
    }
}

pub fn lower_code_exec(c: char) -> (r: u32)
    ensures
        r == lower_code(c),
{
    if 'A' <= c && c <= 'Z' {
        c as u32 + 32
    } else {
        c as u32
    }
}

/// Whether `s.to_ascii_lowercase()` equals the lowercase `lit`.
pub open spec fn lower_matches(s: Seq<char>, lit: Seq<char>) -> bool {
    s.len() == lit.len() && forall|i: int| 0 <= i < s.len() ==> lower_code(s[i]) == lit[i] as u32
}

/// `a.eq_ignore_ascii_case(b)`.
pub open spec fn eq_ignore_case(a: Seq<char>, b: Seq<char>) -> bool {
    a.len() == b.len() && forall|i: int| 0 <= i < a.len() ==> lower_code(a[i]) == lower_code(b[i])
}

/// Whether `v[lo..hi]` lowercased equals `lit`.
pub fn lower_matches_range(v: &Vec<char>, lo: usize, hi: usize, lit: &str) -> (r: bool)
    requires
        lo <= hi <= v@.len(),
    ensures
        r == lower_matches(v@.subrange(lo as int, hi as int), lit@),
{
    let l = chars_of(lit);
    if hi - lo != l.len() {
        return false;
    }
    let mut i: usize = 0;
    while i < l.len()
        invariant
            hi - lo == l@.len(),
            lo <= hi <= v@.len(),
            l@ == lit@,
            i <= l@.len(),
            forall|j: int| 0 <= j < i ==> lower_code(v@[lo + j]) == l@[j] as u32,
        decreases l@.len() - i,
    {
        if lower_code_exec(v[lo + i]) != l[i] as u32 {
            return false;
        }
        i = i + 1;
    }
    true
}

/// Whether two strings are equal ignoring ASCII case.
pub fn eq_ignore_case_exec(a: &Vec<char>, b: &Vec<char>) -> (r: bool)
    ensures
        r == eq_ignore_case(a@, b@),
{
    if a.len() != b.len() {
        return false;
    }
    let mut i: usize = 0;
    while i < a.len()
        invariant
            a@.len() == b@.len(),
            i <= a@.len(),
            forall|j: int| 0 <= j < i ==> lower_code(a@[j]) == lower_code(b@[j]),
        decreases a@.len() - i,
    {
        if lower_code_exec(a[i]) != lower_code_exec(b[i]) {
            return false;
        }
        i = i + 1;
    }
    true
}

/// The decimal digit character for `d < 10`.
pub open spec fn digit_char(d: int) -> char {
    seq!['0', '1', '2', '3', '4', '5', '6', '7', '8', '9'][d]
}

/// `n.to_string()` for an unsigned integer.
pub open spec fn decimal(n: nat) -> Seq<char>
    decreases n,
{
    if n < 10 {
        seq![digit_char(n as int)]
    } else {
        decimal(n / 10).push(digit_char((n % 10) as int))
    }
}

/// `n.to_string()`.
pub fn u64_to_decimal(n: u64) -> (s: String)
    ensures
        s@ == decimal(n as nat),
{
    u128_to_decimal(n as u128)
}

/// `n.to_string()` for a 128-bit unsigned integer.
pub fn u128_to_decimal(n: u128) -> (s: String)
    ensures
        s@ == decimal(n as nat),
{
    let digits: [char; 10] = ['0', '1', '2', '3', '4', '5', '6', '7', '8', '9'];
    let ghost dseq = seq!['0', '1', '2', '3', '4', '5', '6', '7', '8', '9'];
    assert(digits@ =~= dseq);
    let mut rev: Vec<char> = Vec::new();
    let mut m = n;
    let ghost mut parts: Seq<nat> = seq![n as nat];
    while m >= 10
        invariant
            digits@ == dseq,
            dseq == seq!['0', '1', '2', '3', '4', '5', '6', '7', '8', '9'],
            decimal(n as nat) == decimal(m as nat) + rev@.reverse(),
        decreases m,
    {
        let d = (m % 10) as usize;
        assert(d as int == (m % 10) as int);
        let ch = digits[d];
        assert(ch == dseq[d as int]);
        rev.push(ch);
        proof {
            assert(rev@.last() == digit_char((m % 10) as int));
            assert(decimal(m as nat) == decimal((m / 10) as nat).push(digit_char((m % 10) as int)));
            assert(rev@.reverse() =~= seq![digit_char((m % 10) as int)] + rev@.drop_last().reverse());
        }
        m = m / 10;
    }
    let ch = digits[m as usize];
    assert(ch == digit_char(m as int));
    rev.push(ch);
    let mut s = String::new();
    let mut i = rev.len();
    proof {
        assert(rev@.reverse() =~= seq![digit_char(m as int)] + rev@.drop_last().reverse());
    }
    while i > 0
        invariant
            i <= rev@.len(),
            s@ == rev@.subrange(i as int, rev@.len() as int).reverse(),
        decreases i,
    {
        i = i - 1;
        push_char(&mut s, rev[i]);
        proof {
            assert(rev@.subrange(i as int, rev@.len() as int).reverse() =~= rev@.subrange(
                i + 1,
                rev@.len() as int,
            ).reverse().push(rev@[i as int]));
        }
    }
    assert(rev@.subrange(0, rev@.len() as int) =~= rev@);
    s
}

/// The value of a string of decimal digits.
pub open spec fn digits_value(s: Seq<char>) -> nat
    decreases s.len(),
{
    if s.len() == 0 {
        0
    } else {
        digits_value(s.drop_last()) * 10 + ((s.last() as u32 - '0' as u32) as nat)
    }
}

/// Every character is a decimal digit.
pub open spec fn all_digits(s: Seq<char>) -> bool {
    forall|i: int| 0 <= i < s.len() ==> is_digit(s[i])
}

/// The digits of an unsigned integer literal: an optional leading `+` removed.
pub open spec fn unsigned_digits(s: Seq<char>) -> Seq<char> {
    if s.len() > 0 && s[0] == '+' {
        s.drop_first()
    } else {
        s
    }
}

/// `s.parse::<u64>()`: `Some` exactly when it succeeds.
pub open spec fn parse_u64(s: Seq<char>) -> Option<u64> {
    let d = unsigned_digits(s);
    if d.len() > 0 && all_digits(d) && digits_value(d) <= u64::MAX {
        Some(digits_value(d) as u64)
    } else {
        None
    }
}

/// `s.parse::<u32>()`: `Some` exactly when it succeeds.
pub open spec fn parse_u32(s: Seq<char>) -> Option<u32> {
    let d = unsigned_digits(s);
    if d.len() > 0 && all_digits(d) && digits_value(d) <= u32::MAX {
        Some(digits_value(d) as u32)
    } else {
        None
    }
}

proof fn lemma_digits_prefix_le(s: Seq<char>, k: int)
    requires
        0 <= k <= s.len(),
        all_digits(s),
    ensures
        digits_value(s.subrange(0, k)) <= digits_value(s),
    decreases s.len() - k,
{
    if k < s.len() {
        lemma_digits_prefix_le(s, k + 1);
        assert(s.subrange(0, k + 1).drop_last() =~= s.subrange(0, k));
    } else {
        assert(s.subrange(0, k) =~= s);
    }
}

/// `v[lo..hi].parse::<u64>()`.
pub fn parse_u64_range(v: &Vec<char>, lo: usize, hi: usize) -> (r: Option<u64>)
    requires
        lo <= hi <= v@.len(),
    ensures
        r == parse_u64(v@.subrange(lo as int, hi as int)),
{
    let ghost s = v@.subrange(lo as int, hi as int);
    let mut start = lo;
    if lo < hi && v[lo] == '+' {
        start = lo + 1;
    }
    let ghost d = v@.subrange(start as int, hi as int);
    proof {
        assert(unsigned_digits(s) =~= d);
    }
    if start == hi {
        return None;
    }
    let mut val: u64 = 0;
    let mut i = start;
    while i < hi
        invariant
            start <= i <= hi <= v@.len(),
            d == v@.subrange(start as int, hi as int),
            unsigned_digits(v@.subrange(lo as int, hi as int)) == d,
            forall|j: int| start <= j < i ==> is_digit(v@[j]),
            val as nat == digits_value(v@.subrange(start as int, i as int)),
        decreases hi - i,
    {
        let c = v[i];
        if !('0' <= c && c <= '9') {
            proof {
                assert(d[i - start] == c);
                assert(!is_digit(d[i - start]));
                assert(!all_digits(d));
            }
            return None;
        }
        let digit = (c as u32 - '0' as u32) as u64;
        proof {
            assert(v@.subrange(start as int, i + 1).drop_last() =~= v@.subrange(
                start as int,
                i as int,
            ));
        }
        match val.checked_mul(10) {
            None => {
                proof {
                    if all_digits(d) {
                        lemma_digits_prefix_le(d, i + 1 - start);
                        assert(d.subrange(0, i + 1 - start) =~= v@.subrange(start as int, i + 1));
                    }
                }
                return None;
            },
            Some(t) => match t.checked_add(digit) {
                None => {
                    proof {
                        if all_digits(d) {
                            lemma_digits_prefix_le(d, i + 1 - start);
                            assert(d.subrange(0, i + 1 - start) =~= v@.subrange(start as int, i + 1));
                        }
                    }
                    return None;
                },
                Some(nv) => {
                    val = nv;
                },
            },
        }
        i = i + 1;
    }
    proof {
        assert(all_digits(d));
    }
    Some(val)
}

/// `s.parse::<u64>()`.
pub fn parse_u64_str(s: &str) -> (r: Option<u64>)
    ensures
        r == parse_u64(s@),
{
    let v = chars_of(s);
    assert(v@.subrange(0, v@.len() as int) =~= v@);
    parse_u64_range(&v, 0, v.len())
}

/// `v[lo..hi].parse::<u32>()`.
pub fn parse_u32_range(v: &Vec<char>, lo: usize, hi: usize) -> (r: Option<u32>)
    requires
        lo <= hi <= v@.len(),
    ensures
        r == parse_u32(v@.subrange(lo as int, hi as int)),
{
    match parse_u64_range(v, lo, hi) {
        Some(n) => {
            if n <= 0xffff_ffff {
                Some(n as u32)
            } else {
                None
            }
        },
        None => None,
    }
}

/// The text `format!("{s:?}")` gives for a string.
pub uninterp spec fn debug_text(s: Seq<char>) -> Seq<char>;

/// `format!("{s:?}")` on a `&str`: the quoted, escaped form of `s`. Its
/// contract names the result and says nothing of its characters.
#[verifier::external_body]
pub(crate) fn debug_quoted(s: &str) -> (r: String)
    ensures
        r@ == debug_text(s@),
{
    format!("{s:?}")
}

/// What `char::escape_debug` writes for a character.
pub uninterp spec fn char_escape_text(c: char) -> Seq<char>;

/// `c.escape_debug()`, collected into a `String`. Its contract names the
/// result and says nothing of its characters.
#[verifier::external_body]
fn char_escape(c: char) -> (r: String)
    ensures
        r@ == char_escape_text(c),
{
    c.escape_debug().to_string()
}

/// The characters of a text, each written as `char::escape_debug` writes it.
pub open spec fn escaped_chars(s: Seq<char>) -> Seq<char>
    decreases s.len(),
{
    if s.len() == 0 {
        Seq::empty()
    } else {
        escaped_chars(s.drop_last()) + char_escape_text(s.last())
    }
}

/// How `Debug` writes an OS string holding a text: in double quotes, each
/// character escaped as `char::escape_debug` escapes it (so a `'` is written
/// `\'`, unlike in a `str`).
pub open spec fn os_debug_text(s: Seq<char>) -> Seq<char> {
    "\""@ + escaped_chars(s) + "\""@
}

/// The `Debug` form of an OS string (a program or argument) holding `s`.
pub fn os_debug_quoted(s: &str) -> (r: String)
    ensures
        r@ == os_debug_text(s@),
{
    let v = chars_of(s);
    let mut r = String::from_str("\"");
    let mut i: usize = 0;
    while i < v.len()
        invariant
            i <= v@.len(),
            v@ == s@,
            r@ == "\""@ + escaped_chars(v@.subrange(0, i as int)),
        decreases v@.len() - i,
    {
        proof {
            assert(v@.subrange(0, i + 1).drop_last() =~= v@.subrange(0, i as int));
            assert(v@.subrange(0, i + 1).last() == v@[i as int]);
        }
        let e = char_escape(v[i]);
        append(&mut r, e.as_str());
        i = i + 1;
    }
    append(&mut r, "\"");
    proof {
        assert(v@.subrange(0, i as int) =~= s@);
    }
    r
}


/// The digit characters of `0..10` are the ASCII digits, in order.
pub proof fn lemma_digit_char(d: int)
    requires
        0 <= d < 10,
    ensures
        is_digit(digit_char(d)),
        digit_char(d) as u32 - '0' as u32 == d,
{
    let ds = seq!['0', '1', '2', '3', '4', '5', '6', '7', '8', '9'];
    assert(digit_char(d) == ds[d]);
    if d == 0 {
    } else if d == 1 {
    } else if d == 2 {
    } else if d == 3 {
    } else if d == 4 {
    } else if d == 5 {
    } else if d == 6 {
    } else if d == 7 {
    } else if d == 8 {
    } else {
    }
}

/// The decimal form of `n` is a non-empty run of digits whose value is `n`.
pub proof fn lemma_decimal_digits(n: nat)
    ensures
        decimal(n).len() > 0,
        all_digits(decimal(n)),
        digits_value(decimal(n)) == n,
        decimal(n)[0] != '+',
    decreases n,
{
    if n < 10 {
        lemma_digit_char(n as int);
        let d = decimal(n);
        assert(d.drop_last() =~= Seq::<char>::empty());
        assert(d.last() == digit_char(n as int));
        assert(digits_value(d.drop_last()) == 0);
        assert(digits_value(d) == digits_value(d.drop_last()) * 10 + ((d.last() as u32 - '0' as u32) as nat));
    } else {
        lemma_decimal_digits(n / 10);
        lemma_digit_char((n % 10) as int);
        let d = decimal(n);
        assert(d.drop_last() =~= decimal(n / 10));
        assert(d.last() == digit_char((n % 10) as int));
        assert(n == (n / 10) * 10 + n % 10);
        assert(digits_value(d) == digits_value(decimal(n / 10)) * 10 + (n % 10));
        assert(forall|i: int| 0 <= i < d.len() - 1 ==> d[i] == decimal(n / 10)[i]);
        assert(d[0] == decimal(n / 10)[0]);
    }
}

/// `parse::<u64>` reads back the decimal form of any `u64`.
pub proof fn lemma_parse_decimal(n: u64)
    ensures
        parse_u64(decimal(n as nat)) == Some(n),
        parse_u32(decimal(n as nat)) == (if n <= u32::MAX { Some(n as u32) } else { None::<u32> }),
{
    lemma_decimal_digits(n as nat);
    assert(unsigned_digits(decimal(n as nat)) == decimal(n as nat));
}

/// `s` with every occurrence of the non-empty `p` at or after `i` replaced by
/// `r`, scanning left to right without overlap.
pub open spec fn replace_from(s: Seq<char>, p: Seq<char>, r: Seq<char>, i: int) -> Seq<char>
    decreases s.len() - i,
{
    if i < 0 || i > s.len() {
        Seq::empty()
    } else if p.len() == 0 {
        s.subrange(i, s.len() as int)
    } else {
        let j = find_str_from(s, p, i);
        if j < 0 {
            s.subrange(i, s.len() as int)
        } else {
            proof {
                lemma_find_str_from(s, p, i);
            }
            s.subrange(i, j) + r + replace_from(s, p, r, j + p.len())
        }
    }
}

/// `str::replace` with a non-empty pattern.
pub open spec fn replace_all(s: Seq<char>, p: Seq<char>, r: Seq<char>) -> Seq<char> {
    replace_from(s, p, r, 0)
}

/// `s.replace(p, r)` for a non-empty pattern `p`.
pub fn replace_str(s: &str, p: &str, r: &str) -> (out: String)
    requires
        p@.len() > 0,
    ensures
        out@ == replace_all(s@, p@, r@),
{
    let v = chars_of(s);
    let pv = chars_of(p);
    let mut out = String::new();
    let mut i: usize = 0;
    loop
        invariant_except_break
            v@ == s@,
            pv@ == p@,
            p@.len() > 0,
            i <= v@.len(),
            out@ + replace_from(s@, p@, r@, i as int) == replace_all(s@, p@, r@),
        ensures
            out@ == replace_all(s@, p@, r@),
        decreases v@.len() - i,
    {
        proof {
            lemma_find_str_from(s@, p@, i as int);
        }
        match find_str_in(&v, &pv, i) {
            None => {
                let tail = string_of_range(&v, i, v.len());
                proof {
                    assert(replace_from(s@, p@, r@, i as int) == s@.subrange(i as int, s@.len() as int));
                }
                append(&mut out, tail.as_str());
                break;
            },
            Some(j) => {
                assert(matches_at(v@, pv@, j as int));
                assert(j + pv@.len() <= v@.len());
                assert(pv.len() <= v.len() - j);
                let mid = string_of_range(&v, i, j);
                append(&mut out, mid.as_str());
                append(&mut out, r);
                proof {
                    assert(replace_from(s@, p@, r@, i as int) == s@.subrange(i as int, j as int) + r@
                        + replace_from(s@, p@, r@, j + p@.len()));
                    assert(out@ + replace_from(s@, p@, r@, j + p@.len()) =~= replace_all(s@, p@, r@));
                }
                i = j + pv.len();
            },
        }
    }
    out
}

/// The text of an optional string.
pub open spec fn opt_string(o: Option<String>) -> Option<Seq<char>> {
    match o {
        Some(s) => Some(s@),
        None => None,
    }
}

} // verus!
