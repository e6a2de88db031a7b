//! Character-level text helpers shared by the parsers of this crate.
//!
//! Strings are modelled by their `Seq<char>` view. The specification
//! functions here state what `str::trim`, `str::lines`, `str::split` and
//! `str::split_once` compute, and the executable functions compute the same
//! on a `Vec<char>` copy of the text.

use vstd::prelude::*;
use vstd::string::StringExecFns;

verus! {

broadcast use vstd::string::group_string_axioms;

/// `char::is_whitespace`: the Unicode `White_Space` property.
pub open spec fn is_ws(c: char) -> bool {
    let u: u32 = c as u32;
    ||| 0x09 <= u <= 0x0D
    ||| u == 0x20
    ||| u == 0x85
    ||| u == 0xA0
    ||| u == 0x1680
    ||| 0x2000 <= u <= 0x200A
    ||| u == 0x2028
    ||| u == 0x2029
    ||| u == 0x202F
    ||| u == 0x205F
    ||| u == 0x3000
}

/// Executable `char::is_whitespace`.
pub fn is_whitespace(c: char) -> (b: bool)
    ensures
        b == is_ws(c),
{
    let u: u32 = c as u32;
    (0x09 <= u && u <= 0x0D) || u == 0x20 || u == 0x85 || u == 0xA0 || u == 0x1680 || (0x2000
        <= u && u <= 0x200A) || u == 0x2028 || u == 0x2029 || u == 0x202F || u == 0x205F || u
        == 0x3000
}

/// `char::is_ascii_digit`.
pub open spec fn is_digit(c: char) -> bool {
    '0' <= c <= '9'
}

/// `char::to_ascii_lowercase`.
pub open spec fn ascii_lower(c: char) -> char {
    if 'A' <= c <= 'Z' {
        ((c as u32) + 32) as char
    } else {
        c
    }
}

/// Executable `char::to_ascii_lowercase`.
pub fn to_ascii_lower(c: char) -> (r: char)
    ensures
        r == ascii_lower(c),
{
    if 'A' <= c && c <= 'Z' {
        let u: u32 = (c as u32) + 32;
        assert(0x61 <= u <= 0x7a);
        // `char::from_u32` is not available here; the byte cast covers ASCII.
        let b: u8 = u as u8;
        b as char
    } else {
        c
    }
}

/// Both sequences are equal once ASCII letters are folded to lowercase.
pub open spec fn eq_ignore_ascii_case(a: Seq<char>, b: Seq<char>) -> bool {
    &&& a.len() == b.len()
    &&& forall|i: int| 0 <= i < a.len() ==> ascii_lower(#[trigger] a[i]) == ascii_lower(b[i])
}

/// `str::trim_start`.
pub open spec fn trim_start(s: Seq<char>) -> Seq<char>
    decreases s.len(),
{
    if s.len() > 0 && is_ws(s[0]) {
        trim_start(s.drop_first())
    } else {
        s
    }
}

/// `str::trim_end`.
pub open spec fn trim_end(s: Seq<char>) -> Seq<char>
    decreases s.len(),
{
    if s.len() > 0 && is_ws(s.last()) {
        trim_end(s.drop_last())
    } else {
        s
    }
}

/// `str::trim`.
pub open spec fn trim(s: Seq<char>) -> Seq<char> {
    trim_end(trim_start(s))
}

/// The first index at or after `from` (and before `hi`) holding `c`, or `hi`.
pub open spec fn index_of_in(s: Seq<char>, c: char, from: int, hi: int) -> int
    decreases hi - from,
{
    if from >= hi {
        hi
    } else if s[from] == c {
        from
    } else {
        index_of_in(s, c, from + 1, hi)
    }
}

/// Removes one trailing `'\r'`.
pub open spec fn strip_cr(s: Seq<char>) -> Seq<char> {
    if s.len() > 0 && s.last() == '\r' {
        s.drop_last()
    } else {
        s
    }
}

/// The lines of `s` from position `start` on, as `str::lines` yields them:
/// split at `'\n'`, a `'\r'` before the `'\n'` removed, no empty line after a
/// final `'\n'`.
pub open spec fn lines_from(s: Seq<char>, start: int) -> Seq<Seq<char>>
    decreases s.len() - start,
{
    if start >= s.len() || start < 0 {
        seq![]
    } else {
        let j = index_of_in(s, '\n', start, s.len() as int);
        proof {
            lemma_index_of_in_bounds(s, '\n', start, s.len() as int);
        }
        if j >= s.len() {
            seq![s.subrange(start, s.len() as int)]
        } else {
            seq![strip_cr(s.subrange(start, j))] + lines_from(s, j + 1)
        }
    }
}

/// `str::lines`.
pub open spec fn lines(s: Seq<char>) -> Seq<Seq<char>> {
    lines_from(s, 0)
}

/// The pieces of `s[from..]` split at `c`, as `str::split(c)` yields them.
pub open spec fn split_from(s: Seq<char>, c: char, from: int) -> Seq<Seq<char>>
    decreases s.len() - from,
{
    if from < 0 || from > s.len() {
        seq![]
    } else {
        let j = index_of_in(s, c, from, s.len() as int);
        proof {
            lemma_index_of_in_bounds(s, c, from, s.len() as int);
        }
        if j >= s.len() {
            seq![s.subrange(from, s.len() as int)]
        } else {
            seq![s.subrange(from, j)] + split_from(s, c, j + 1)
        }
    }
}

/// `str::split(c)`.
pub open spec fn split(s: Seq<char>, c: char) -> Seq<Seq<char>> {
    split_from(s, c, 0)
}

/// `s` starts with `p`.
pub open spec fn starts_with(s: Seq<char>, p: Seq<char>) -> bool {
    p.len() <= s.len() && s.subrange(0, p.len() as int) == p
}

/// `s` contains `p` as a contiguous piece.
pub open spec fn contains_seq(s: Seq<char>, p: Seq<char>) -> bool {
    exists|i: int| 0 <= i <= s.len() - p.len() && #[trigger] s.subrange(i, i + p.len()) == p
}

pub proof fn lemma_index_of_in_bounds(s: Seq<char>, c: char, from: int, hi: int)
    requires
        from <= hi,
    ensures
        from <= index_of_in(s, c, from, hi) <= hi,
        index_of_in(s, c, from, hi) < hi ==> s[index_of_in(s, c, from, hi)] == c,
        forall|k: int| from <= k < index_of_in(s, c, from, hi) ==> s[k] != c,
    decreases hi - from,
{
    if from < hi && s[from] != c {
        lemma_index_of_in_bounds(s, c, from + 1, hi);
    }
}

/// The characters of a string slice, in order.
pub fn chars_of(s: &str) -> (v: Vec<char>)
    ensures
        v@ == s@,
{
    let mut v: Vec<char> = Vec::new();
    for c in it: s.chars()
        invariant
            v@ == it.seq().take(it.index()),
    {
        v.push(c);
    }
    v
}

/// Appends one character to a `String` (`String::push`).
#[verifier::external_body]
pub(crate) fn push_char(s: &mut String, c: char)
    ensures
        final(s)@ == old(s)@.push(c),
{
    s.push(c);
}

/// A `String` holding `v[lo..hi]`.
pub fn string_of_range(v: &Vec<char>, lo: usize, hi: usize) -> (s: String)
    requires
        lo <= hi <= v.len(),
    ensures
        s@ == v@.subrange(lo as int, hi as int),
{
    let mut s = String::new();
    let mut i = lo;
    while i < hi
        invariant
            lo <= i <= hi <= v.len(),
            s@ == v@.subrange(lo as int, i as int),
        decreases hi - i,
    {
        push_char(&mut s, v[i]);
        assert(v@.subrange(lo as int, i + 1) == v@.subrange(lo as int, i as int).push(v@[i as int]));
        i += 1;
    }
    s
}

/// A copy of `v[lo..hi]`.
pub fn sub_vec(v: &Vec<char>, lo: usize, hi: usize) -> (r: Vec<char>)
    requires
        lo <= hi <= v.len(),
    ensures
        r@ == v@.subrange(lo as int, hi as int),
{
    let mut r: Vec<char> = Vec::new();
    let mut i = lo;
    while i < hi
        invariant
            lo <= i <= hi <= v.len(),
            r@ == v@.subrange(lo as int, i as int),
        decreases hi - i,
    {
        r.push(v[i]);
        assert(v@.subrange(lo as int, i + 1) == v@.subrange(lo as int, i as int).push(v@[i as int]));
        i += 1;
    }
    r
}

/// First position of `c` in `v[from..hi]`, or `hi`.
pub fn find_char(v: &Vec<char>, c: char, from: usize, hi: usize) -> (r: usize)
    requires
        from <= hi <= v.len(),
    ensures
        r == index_of_in(v@, c, from as int, hi as int),
        from <= r <= hi,
{
    let mut i = from;
    while i < hi
        invariant
            from <= i <= hi <= v.len(),
            index_of_in(v@, c, i as int, hi as int) == index_of_in(v@, c, from as int, hi as int),
        decreases hi - i,
    {
        if v[i] == c {
            return i;
        }
        i += 1;
    }
    i
}

proof fn lemma_trim_start_step(s: Seq<char>, i: int, hi: int)
    requires
        0 <= i < hi <= s.len(),
        is_ws(s[i]),
    ensures
        trim_start(s.subrange(i, hi)) == trim_start(s.subrange(i + 1, hi)),
{
    assert(s.subrange(i, hi).drop_first() == s.subrange(i + 1, hi));
}

proof fn lemma_trim_end_step(s: Seq<char>, lo: int, j: int)
    requires
        0 <= lo < j <= s.len(),
        is_ws(s[j - 1]),
    ensures
        trim_end(s.subrange(lo, j)) == trim_end(s.subrange(lo, j - 1)),
{
    assert(s.subrange(lo, j).drop_last() == s.subrange(lo, j - 1));
}

/// Bounds of `trim(v[lo..hi])` inside `v`.
pub fn trim_bounds(v: &Vec<char>, lo: usize, hi: usize) -> (r: (usize, usize))
    requires
        lo <= hi <= v.len(),
    ensures
        lo <= r.0 <= r.1 <= hi,
        v@.subrange(r.0 as int, r.1 as int) == trim(v@.subrange(lo as int, hi as int)),
{
    let mut i = lo;
    while i < hi && is_whitespace(v[i])
        invariant
            lo <= i <= hi <= v.len(),
            trim_start(v@.subrange(i as int, hi as int)) == trim_start(
                v@.subrange(lo as int, hi as int),
            ),
        decreases hi - i,
    {
        proof {
            lemma_trim_start_step(v@, i as int, hi as int);
        }
        i += 1;
    }
    assert(trim_start(v@.subrange(i as int, hi as int)) == v@.subrange(i as int, hi as int));
    let mut j = hi;
    while j > i && is_whitespace(v[j - 1])
        invariant
            lo <= i <= j <= hi <= v.len(),
            trim_end(v@.subrange(i as int, j as int)) == trim(v@.subrange(lo as int, hi as int)),
        decreases j - i,
    {
        proof {
            lemma_trim_end_step(v@, i as int, j as int);
        }
        j -= 1;
    }
    assert(trim_end(v@.subrange(i as int, j as int)) == v@.subrange(i as int, j as int));
    (i, j)
}

/// `v[lo..hi]` equals `lit`.
pub fn range_eq(v: &Vec<char>, lo: usize, hi: usize, lit: &Vec<char>) -> (r: bool)
    requires
        lo <= hi <= v.len(),
    ensures
        r == (v@.subrange(lo as int, hi as int) == lit@),
{
    if hi - lo != lit.len() {
        return false;
    }
    let mut k: usize = 0;
    while k < lit.len()
        invariant
            lo <= hi <= v.len(),
            hi - lo == lit.len(),
            0 <= k <= lit.len(),
            forall|m: int| 0 <= m < k ==> v@[lo + m] == lit@[m],
        decreases lit.len() - k,
    {
        if v[lo + k] != lit[k] {
            assert(v@.subrange(lo as int, hi as int)[k as int] != lit@[k as int]);
            return false;
        }
        k += 1;
    }
    assert(v@.subrange(lo as int, hi as int) =~= lit@);
    true
}

/// `v[lo..hi]` equals `lit` once ASCII letters are folded to lowercase.
pub fn range_eq_ignore_case(v: &Vec<char>, lo: usize, hi: usize, lit: &Vec<char>) -> (r: bool)
    requires
        lo <= hi <= v.len(),
    ensures
        r == eq_ignore_ascii_case(v@.subrange(lo as int, hi as int), lit@),
{
    if hi - lo != lit.len() {
        return false;
    }
    let mut k: usize = 0;
    while k < lit.len()
        invariant
            lo <= hi <= v.len(),
            hi - lo == lit.len(),
            0 <= k <= lit.len(),
            forall|m: int| 0 <= m < k ==> ascii_lower(v@[lo + m]) == ascii_lower(lit@[m]),
        decreases lit.len() - k,
    {
        if to_ascii_lower(v[lo + k]) != to_ascii_lower(lit[k]) {
            assert(v@.subrange(lo as int, hi as int)[k as int] == v@[lo + k]);
            return false;
        }
        k += 1;
    }
    assert forall|m: int| 0 <= m < lit@.len() implies ascii_lower(
        #[trigger] v@.subrange(lo as int, hi as int)[m],
    ) == ascii_lower(lit@[m]) by {
        assert(v@.subrange(lo as int, hi as int)[m] == v@[lo + m]);
    }
    true
}

/// `v[lo..hi]` begins with `lit`.
pub fn range_starts_with(v: &Vec<char>, lo: usize, hi: usize, lit: &Vec<char>) -> (r: bool)
    requires
        lo <= hi <= v.len(),
    ensures
        r == starts_with(v@.subrange(lo as int, hi as int), lit@),
{
    if hi - lo < lit.len() {
        return false;
    }
    let r = range_eq(v, lo, lo + lit.len(), lit);
    assert(v@.subrange(lo as int, hi as int).subrange(0, lit@.len() as int) == v@.subrange(
        lo as int,
        lo + lit@.len(),
    ));
    r
}


/// The views of a sequence of strings.
pub open spec fn views(v: Seq<String>) -> Seq<Seq<char>> {
    v.map_values(|s: String| s@)
}

/// Dropping a prefix of lines from a `lines_from` result: it equals the lines
/// that start after the first line break at or after `start`.
pub proof fn lemma_lines_from_unfold(s: Seq<char>, start: int)
    requires
        0 <= start < s.len(),
    ensures
        ({
            let j = index_of_in(s, '\n', start, s.len() as int);
            &&& start <= j <= s.len()
            &&& j < s.len() ==> lines_from(s, start) == seq![strip_cr(s.subrange(start, j))] + lines_from(s, j + 1)
            &&& j == s.len() ==> lines_from(s, start) == seq![s.subrange(start, s.len() as int)]
        }),
{
    lemma_index_of_in_bounds(s, '\n', start, s.len() as int);
}

/// Bounds of the line starting at `start`: the end of its text (a `'\r'`
/// before the `'\n'` excluded) and the start of the next line.
pub fn line_bounds(v: &Vec<char>, start: usize) -> (r: (usize, usize))
    requires
        start < v.len(),
    ensures
        start <= r.0 <= r.1 <= v.len(),
        r.1 > start,
        lines_from(v@, start as int) == seq![v@.subrange(start as int, r.0 as int)] + lines_from(v@, r.1 as int),
{
    let j = find_char(v, '\n', start, v.len());
    proof {
        lemma_lines_from_unfold(v@, start as int);
    }
    if j >= v.len() {
        assert(lines_from(v@, v@.len() as int) =~= Seq::<Seq<char>>::empty());
        assert(seq![v@.subrange(start as int, v@.len() as int)] + Seq::<Seq<char>>::empty() =~= seq![v@.subrange(start as int, v@.len() as int)]);
        (v.len(), v.len())
    } else {
        if j > start && v[j - 1] == '\r' {
            assert(strip_cr(v@.subrange(start as int, j as int)) == v@.subrange(start as int, j - 1));
            (j - 1, j + 1)
        } else {
            assert(strip_cr(v@.subrange(start as int, j as int)) == v@.subrange(start as int, j as int));
            (j, j + 1)
        }
    }
}


/// The first position at or after `i` where `p` occurs in `s`.
pub open spec fn find_from(s: Seq<char>, p: Seq<char>, i: int) -> Option<int>
    decreases s.len() - i,
{
    if i < 0 || i + p.len() > s.len() {
        None
    } else if s.subrange(i, i + p.len()) == p {
        Some(i)
    } else if i + p.len() == s.len() {
        None
    } else {
        find_from(s, p, i + 1)
    }
}

pub proof fn lemma_find_from_bounds(s: Seq<char>, p: Seq<char>, i: int)
    ensures
        find_from(s, p, i) matches Some(j) ==> i <= j && j + p.len() <= s.len() && s.subrange(j, j + p.len()) == p,
        find_from(s, p, i) is None ==> forall|k: int| 0 <= i <= k && k + p.len() <= s.len() ==> #[trigger] s.subrange(k, k + p.len()) != p,
    decreases s.len() - i,
{
    if !(i < 0 || i + p.len() > s.len()) && s.subrange(i, i + p.len()) != p && i + p.len() != s.len() {
        lemma_find_from_bounds(s, p, i + 1);
    }
}

/// First occurrence of `p` in `v[from..]`.
pub fn find_seq(v: &Vec<char>, p: &Vec<char>, from: usize) -> (r: Option<usize>)
    requires
        from <= v.len(),
    ensures
        r == (match find_from(v@, p@, from as int) {
            Some(j) => Some(j as usize),
            None => None,
        }),
{
    if p.len() > v.len() - from {
        return None;
    }
    let mut i = from;
    while p.len() <= v.len() - i
        invariant
            from <= i <= v.len(),
            find_from(v@, p@, i as int) == find_from(v@, p@, from as int),
        decreases v.len() - i,
    {
        if range_eq(v, i, i + p.len(), p) {
            return Some(i);
        }
        if i + p.len() == v.len() {
            return None;
        }
        i += 1;
    }
    None
}

/// `a + b + c` as a new `String`.
pub fn concat3(a: &str, b: &str, c: &str) -> (r: String)
    ensures
        r@ == a@ + b@ + c@,
{
    let mut r = String::from_str(a);
    r.append(b);
    r.append(c);
    r
}


/// The UTF-8 encoding of a character sequence.
pub open spec fn utf8_bytes(s: Seq<char>) -> Seq<u8> {
    vstd::utf8::encode_utf8(s)
}


/// Searching a piece of a sequence is searching the sequence, shifted.
pub proof fn lemma_index_of_in_sub(s: Seq<char>, c: char, base: int, from: int, hi: int)
    requires
        0 <= base <= from <= hi <= s.len(),
    ensures
        index_of_in(s.subrange(base, hi), c, from - base, hi - base) == index_of_in(s, c, from, hi) - base,
    decreases hi - from,
{
    if from < hi {
        assert(s.subrange(base, hi)[from - base] == s[from]);
        lemma_index_of_in_sub(s, c, base, from + 1, hi);
    }
}

/// Unfolds one piece of `split_from`.
pub proof fn lemma_split_from_unfold(s: Seq<char>, c: char, from: int)
    requires
        0 <= from <= s.len(),
    ensures
        ({
            let j = index_of_in(s, c, from, s.len() as int);
            &&& from <= j <= s.len()
            &&& j < s.len() ==> split_from(s, c, from) == seq![s.subrange(from, j)] + split_from(s, c, j + 1)
            &&& j == s.len() ==> split_from(s, c, from) == seq![s.subrange(from, s.len() as int)]
        }),
{
    lemma_index_of_in_bounds(s, c, from, s.len() as int);
}

/// The ASCII digit for `d < 10`.
pub open spec fn digit_char(d: nat) -> char {
    (48 + d) as char
}

/// The decimal digits of `n`, most significant first, without leading zeros.
pub open spec fn dec_digits(n: nat) -> Seq<char>
    decreases n,
{
    if n < 10 {
        seq![digit_char(n)]
    } else {
        dec_digits(n / 10).push(digit_char(n % 10))
    }
}

/// Appends the decimal digits of `n` to `out`.
pub fn push_decimal(out: &mut String, n: u64)
    ensures
        final(out)@ == old(out)@ + dec_digits(n as nat),
    decreases n,
{
    if n >= 10 {
        push_decimal(out, n / 10);
    }
    let d: u8 = (n % 10) as u8;
    let c: char = (d + 48u8) as char;
    push_char(out, c);
    proof {
        assert(c == digit_char((n % 10) as nat));
    }
}

/// `n` written in decimal (`u64::to_string`).
pub fn decimal(n: u64) -> (s: String)
    ensures
        s@ == dec_digits(n as nat),
{
    let mut s = String::new();
    push_decimal(&mut s, n);
    assert(s@ =~= dec_digits(n as nat));
    s
}

/// Whether `p` occurs in `s` (`str::contains`).
pub fn contains_str(s: &str, p: &str) -> (r: bool)
    ensures
        r == contains_seq(s@, p@),
{
    let v = chars_of(s);
    let pv = chars_of(p);
    let found = find_seq(&v, &pv, 0);
    proof {
        lemma_find_from_bounds(s@, p@, 0);
        if contains_seq(s@, p@) {
            let i = choose|i: int| 0 <= i <= s@.len() - p@.len() && #[trigger] s@.subrange(i, i + p@.len()) == p@;
            assert(s@.subrange(i, i + p@.len()) == p@);
        }
    }
    found.is_some()
}

/// The text after the last `c` in `s`; all of `s` when it holds no `c`.
pub open spec fn last_segment(s: Seq<char>, c: char) -> Seq<char>
    decreases s.len(),
{
    if s.len() == 0 {
        s
    } else if s.last() == c {
        Seq::empty()
    } else {
        last_segment(s.drop_last(), c).push(s.last())
    }
}

/// The piece of `s` after its last `c` (`s.split(c).last()`).
pub fn after_last(s: &str, c: char) -> (r: String)
    ensures
        r@ == last_segment(s@, c),
{
    let v = chars_of(s);
    let n = v.len();
    let mut j = n;
    assert(v@.subrange(0, n as int) =~= v@);
    assert(v@.subrange(n as int, n as int) =~= Seq::<char>::empty());
    assert(last_segment(v@, c) + Seq::<char>::empty() =~= last_segment(v@, c));
    while j > 0 && v[j - 1] != c
        invariant
            j <= n == v.len(),
            v@ == s@,
            last_segment(v@.subrange(0, j as int), c) + v@.subrange(j as int, n as int) == last_segment(v@, c),
        decreases j,
    {
        let ghost sj = v@.subrange(0, j as int);
        assert(sj.drop_last() =~= v@.subrange(0, j - 1));
        assert(v@.subrange(j - 1, n as int) =~= seq![v@[j - 1]] + v@.subrange(j as int, n as int));
        assert(last_segment(sj, c) == last_segment(v@.subrange(0, j - 1), c).push(v@[j - 1]));
        assert(last_segment(v@.subrange(0, j - 1), c).push(v@[j - 1]) + v@.subrange(j as int, n as int)
            =~= last_segment(v@.subrange(0, j - 1), c) + v@.subrange(j - 1, n as int));
        j -= 1;
    }
    assert(v@.subrange(0, n as int) =~= v@);
    assert(last_segment(v@.subrange(0, j as int), c) =~= Seq::<char>::empty());
    assert(Seq::<char>::empty() + v@.subrange(j as int, n as int) =~= v@.subrange(j as int, n as int));
    string_of_range(&v, j, n)
}

/// Whether `x` is one of the strings of `v`.
pub fn contains_string(v: &[String], x: &String) -> (r: bool)
    ensures
        r == views(v@).contains(x@),
{
    let mut i: usize = 0;
    while i < v.len()
        invariant
            0 <= i <= v.len(),
            forall|j: int| 0 <= j < i ==> v@[j]@ != x@,
        decreases v.len() - i,
    {
        if v[i] == *x {
            assert(views(v@)[i as int] == x@);
            return true;
        }
        i += 1;
    }
    assert forall|j: int| 0 <= j < views(v@).len() implies views(v@)[j] != x@ by {
        assert(views(v@)[j] == v@[j]@);
    }
    false
}

/// `s` trimmed, as a new `String` (`str::trim`).
pub fn trim_string(s: &str) -> (r: String)
    ensures
        r@ == trim(s@),
{
    let v = chars_of(s);
    let (a, b) = trim_bounds(&v, 0, v.len());
    assert(v@.subrange(0, v@.len() as int) =~= v@);
    string_of_range(&v, a, b)
}

/// The first index at or after `i` that is not whitespace, or `s.len()`.
pub open spec fn skip_ws(s: Seq<char>, i: int) -> int
    decreases s.len() - i,
{
    if i < 0 || i >= s.len() || !is_ws(s[i]) {
        i
    } else {
        skip_ws(s, i + 1)
    }
}

/// The first index at or after `i` that is whitespace, or `s.len()`.
pub open spec fn word_end(s: Seq<char>, i: int) -> int
    decreases s.len() - i,
{
    if i < 0 || i >= s.len() || is_ws(s[i]) {
        i
    } else {
        word_end(s, i + 1)
    }
}

proof fn lemma_skip_bounds(s: Seq<char>, i: int)
    requires
        0 <= i <= s.len(),
    ensures
        i <= skip_ws(s, i) <= s.len(),
        skip_ws(s, i) < s.len() ==> !is_ws(s[skip_ws(s, i)]),
    decreases s.len() - i,
{
    if i < s.len() && is_ws(s[i]) {
        lemma_skip_bounds(s, i + 1);
    }
}

proof fn lemma_word_end_bounds(s: Seq<char>, i: int)
    requires
        0 <= i <= s.len(),
    ensures
        i <= word_end(s, i) <= s.len(),
    decreases s.len() - i,
{
    if i < s.len() && !is_ws(s[i]) {
        lemma_word_end_bounds(s, i + 1);
    }
}

/// The maximal runs of non-whitespace characters of `s` from `i` on
/// (`str::split_whitespace`).
pub open spec fn words_from(s: Seq<char>, i: int) -> Seq<Seq<char>>
    decreases s.len() - i,
{
    let a = skip_ws(s, i);
    if i < 0 || i > s.len() || a >= s.len() || a < i {
        Seq::empty()
    } else {
        let b = word_end(s, a);
        if b <= a || b > s.len() {
            Seq::empty()
        } else {
            seq![s.subrange(a, b)] + words_from(s, b)
        }
    }
}

/// The words of `s`, as `str::split_whitespace` yields them.
pub open spec fn words(s: Seq<char>) -> Seq<Seq<char>> {
    words_from(s, 0)
}

/// The whitespace-separated words of `s`.
pub fn split_whitespace(s: &str) -> (r: Vec<String>)
    ensures
        views(r@) == words(s@),
{
    let v = chars_of(s);
    let n = v.len();
    let mut r: Vec<String> = Vec::new();
    let mut i: usize = 0;
    while i < n
        invariant
            0 <= i <= n == v.len(),
            v@ == s@,
            views(r@) + words_from(v@, i as int) == words(v@),
        decreases n - i,
    {
        let mut a = i;
        while a < n && is_whitespace(v[a])
            invariant
                i <= a <= n == v.len(),
                skip_ws(v@, a as int) == skip_ws(v@, i as int),
            decreases n - a,
        {
            a += 1;
        }
        if a == n {
            proof {
                assert(words_from(v@, i as int) =~= Seq::<Seq<char>>::empty());
                assert(views(r@) + Seq::<Seq<char>>::empty() =~= views(r@));
                assert(words_from(v@, n as int) =~= Seq::<Seq<char>>::empty());
                assert(views(r@) + words_from(v@, n as int) =~= views(r@));
            }
            i = n;
        } else {
            let mut b = a;
            while b < n && !is_whitespace(v[b])
                invariant
                    a <= b <= n == v.len(),
                    word_end(v@, b as int) == word_end(v@, a as int),
                decreases n - b,
            {
                b += 1;
            }
            proof {
                assert(!is_ws(v@[a as int]));
                assert(b > a);
                assert(words_from(v@, i as int) == seq![v@.subrange(a as int, b as int)] + words_from(v@, b as int));
            }
            let ghost before = r@;
            let w = string_of_range(&v, a, b);
            r.push(w);
            proof {
                assert(views(r@) =~= views(before).push(v@.subrange(a as int, b as int)));
                assert(views(r@) + words_from(v@, b as int) =~= views(before) + (seq![
                    v@.subrange(a as int, b as int),
                ] + words_from(v@, b as int)));
            }
            i = b;
        }
    }
    proof {
        if i == n {
            assert(words_from(v@, n as int) =~= Seq::<Seq<char>>::empty());
            assert(views(r@) + Seq::<Seq<char>>::empty() =~= views(r@));
        }
    }
    r
}

/// The strings of `parts` joined with `sep` between them.
pub open spec fn join(parts: Seq<Seq<char>>, sep: Seq<char>) -> Seq<char>
    decreases parts.len(),
{
    if parts.len() == 0 {
        Seq::empty()
    } else if parts.len() == 1 {
        parts[0]
    } else {
        join(parts.drop_last(), sep) + sep + parts.last()
    }
}

/// `parts[from..].join(sep)`.
pub fn join_from(parts: &Vec<String>, from: usize, sep: &str) -> (r: String)
    requires
        from <= parts.len(),
    ensures
        r@ == join(views(parts@).subrange(from as int, parts.len() as int), sep@),
{
    let mut r = String::new();
    let mut i = from;
    while i < parts.len()
        invariant
            from <= i <= parts.len(),
            r@ == join(views(parts@).subrange(from as int, i as int), sep@),
        decreases parts.len() - i,
    {
        let ghost pre = views(parts@).subrange(from as int, i as int);
        let ghost cur = views(parts@).subrange(from as int, i + 1);
        assert(cur.drop_last() =~= pre);
        assert(cur.last() == parts@[i as int]@);
        if i > from {
            r.append(sep);
        } else {
            assert(pre.len() == 0);
            assert(cur.len() == 1);
        }
        r.append(parts[i].as_str());
        proof {
            if i > from {
                assert(r@ =~= join(pre, sep@) + sep@ + parts@[i as int]@);
            } else {
                assert(r@ =~= parts@[i as int]@);
                assert(cur[0] == parts@[i as int]@);
            }
        }
        i += 1;
    }
    r
}

/// The number written by the decimal digits `d` (all digits).
pub open spec fn digits_value(d: Seq<char>) -> nat
    decreases d.len(),
{
    if d.len() == 0 {
        0
    } else {
        digits_value(d.drop_last()) * 10 + ((d.last() as u32) - 48) as nat
    }
}

pub open spec fn all_digits(d: Seq<char>) -> bool {
    forall|i: int| 0 <= i < d.len() ==> is_digit(#[trigger] d[i])
}

/// What `u64::from_str` accepts: an optional `+` then one or more decimal
/// digits whose value fits in a `u64`.
pub open spec fn parse_u64_spec(s: Seq<char>) -> Option<u64> {
    let d = if s.len() > 0 && s[0] == '+' {
        s.drop_first()
    } else {
        s
    };
    if d.len() > 0 && all_digits(d) && digits_value(d) <= u64::MAX {
        Some(digits_value(d) as u64)
    } else {
        None
    }
}

/// Parses a decimal `u64` as `u64::from_str` does.
pub fn parse_u64(s: &str) -> (r: Option<u64>)
    ensures
        r == parse_u64_spec(s@),
{
    let v = chars_of(s);
    let start: usize = if v.len() > 0 && v[0] == '+' {
        1
    } else {
        0
    };
    let ghost d = if s@.len() > 0 && s@[0] == '+' {
        s@.drop_first()
    } else {
        s@
    };
    assert(d =~= v@.subrange(start as int, v@.len() as int));
    if start >= v.len() {
        return None;
    }
    let mut acc: u64 = 0;
    let mut i = start;
    while i < v.len()
        invariant
            start <= i <= v.len(),
            v@ == s@,
            d == v@.subrange(start as int, v@.len() as int),
            d == (if s@.len() > 0 && s@[0] == '+' {
                s@.drop_first()
            } else {
                s@
            }),
            all_digits(v@.subrange(start as int, i as int)),
            acc as nat == digits_value(v@.subrange(start as int, i as int)),
        decreases v.len() - i,
    {
        let c = v[i];
        let ghost pre = v@.subrange(start as int, i as int);
        let ghost cur = v@.subrange(start as int, i + 1);
        assert(cur.drop_last() =~= pre);
        if !('0' <= c && c <= '9') {
            assert(!all_digits(d)) by {
                assert(d[i - start] == c);
                assert(!is_digit(d[i - start]));
            }
            assert(parse_u64_spec(s@) is None);
            return None;
        }
        let digit: u64 = (c as u32 - 48) as u64;
        if acc > (u64::MAX - digit) / 10 {
            proof {
                assert(digits_value(cur) == acc * 10 + digit);
                assert(digits_value(cur) > u64::MAX) by (nonlinear_arith)
                    requires
                        acc > (u64::MAX - digit) / 10,
                        digits_value(cur) == acc * 10 + digit,
                        digit <= 9,
                ;
                if all_digits(d) {
                    lemma_digits_value_grows(d, cur.len() as int);
                    assert(d.subrange(0, cur.len() as int) =~= cur);
                }
                assert(parse_u64_spec(s@) is None);
            }
            return None;
        }
        acc = acc * 10 + digit;
        proof {
            assert(all_digits(cur)) by {
                assert forall|k: int| 0 <= k < cur.len() implies is_digit(#[trigger] cur[k]) by {
                    if k < pre.len() {
                        assert(cur[k] == pre[k]);
                    }
                }
            }
        }
        i += 1;
    }
    assert(v@.subrange(start as int, i as int) =~= d);
    Some(acc)
}

/// The value of a digit string is at least the value of any prefix.
proof fn lemma_digits_value_grows(d: Seq<char>, k: int)
    requires
        0 <= k <= d.len(),
        all_digits(d),
    ensures
        digits_value(d.subrange(0, k)) <= digits_value(d),
    decreases d.len() - k,
{
    if k < d.len() {
        lemma_digits_value_grows(d, k + 1);
        let p = d.subrange(0, k + 1);
        assert(p.drop_last() =~= d.subrange(0, k));
        assert(is_digit(d[k]));
    } else {
        assert(d.subrange(0, k) =~= d);
    }
}

/// Lexicographic order on characters (code points), which is the order of
/// UTF-8 bytes that `str` comparison uses.
pub open spec fn lex_lt(a: Seq<char>, b: Seq<char>) -> bool
    decreases a.len(),
{
    if a.len() == 0 {
        b.len() > 0
    } else if b.len() == 0 {
        false
    } else if a[0] != b[0] {
        a[0] < b[0]
    } else {
        lex_lt(a.drop_first(), b.drop_first())
    }
}

/// Whether `a` sorts strictly before `b`.
pub fn str_lt(a: &str, b: &str) -> (r: bool)
    ensures
        r == lex_lt(a@, b@),
{
    let av = chars_of(a);
    let bv = chars_of(b);
    let mut i: usize = 0;
    assert(av@.subrange(0, av@.len() as int) =~= av@);
    assert(bv@.subrange(0, bv@.len() as int) =~= bv@);
    while i < av.len() && i < bv.len()
        invariant
            0 <= i <= av.len(),
            i <= bv.len(),
            lex_lt(av@.subrange(i as int, av@.len() as int), bv@.subrange(i as int, bv@.len() as int)) == lex_lt(
                a@,
                b@,
            ),
            av@ == a@,
            bv@ == b@,
        decreases av.len() - i,
    {
        let ghost sa = av@.subrange(i as int, av@.len() as int);
        let ghost sb = bv@.subrange(i as int, bv@.len() as int);
        assert(sa[0] == av@[i as int]);
        assert(sb[0] == bv@[i as int]);
        if av[i] != bv[i] {
            return av[i] < bv[i];
        }
        assert(sa.drop_first() =~= av@.subrange(i + 1, av@.len() as int));
        assert(sb.drop_first() =~= bv@.subrange(i + 1, bv@.len() as int));
        i += 1;
    }
    proof {
        assert(av@.subrange(0, av@.len() as int) =~= av@);
    }
    if i == av.len() {
        assert(av@.subrange(i as int, av@.len() as int).len() == 0);
        i < bv.len()
    } else {
        assert(bv@.subrange(i as int, bv@.len() as int).len() == 0);
        false
    }
}

/// A copy of a vector of strings.
pub fn copy_strings(v: &Vec<String>) -> (r: Vec<String>)
    ensures
        views(r@) == views(v@),
{
    let mut r: Vec<String> = Vec::new();
    let mut i: usize = 0;
    while i < v.len()
        invariant
            0 <= i <= v.len(),
            views(r@) == views(v@).take(i as int),
        decreases v.len() - i,
    {
        let ghost before = r@;
        r.push(v[i].clone());
        assert(views(r@) =~= views(before).push(v@[i as int]@));
        assert(views(v@).take(i + 1) =~= views(v@).take(i as int).push(v@[i as int]@));
        i += 1;
    }
    assert(views(v@).take(v.len() as int) =~= views(v@));
    r
}


/// `lex_lt` is irreflexive, asymmetric and total on distinct sequences.
pub proof fn lemma_lex_basic(a: Seq<char>, b: Seq<char>)
    ensures
        !lex_lt(a, a),
        lex_lt(a, b) ==> !lex_lt(b, a),
        a != b ==> lex_lt(a, b) || lex_lt(b, a),
    decreases a.len(),
{
    if a.len() > 0 {
        lemma_lex_basic(a.drop_first(), a.drop_first());
        if b.len() > 0 {
            lemma_lex_basic(a.drop_first(), b.drop_first());
            if a[0] == b[0] && a.drop_first() == b.drop_first() {
                assert(a =~= seq![a[0]] + a.drop_first());
                assert(b =~= seq![b[0]] + b.drop_first());
            }
        }
    } else if b.len() == 0 {
        assert(a =~= b);
    }
}

/// `lex_lt` is transitive.
pub proof fn lemma_lex_trans(a: Seq<char>, b: Seq<char>, c: Seq<char>)
    ensures
        lex_lt(a, b) && lex_lt(b, c) ==> lex_lt(a, c),
    decreases a.len(),
{
    if a.len() > 0 && b.len() > 0 && c.len() > 0 {
        lemma_lex_trans(a.drop_first(), b.drop_first(), c.drop_first());
    }
}

/// UTF-8 encoding maps concatenation to concatenation.
pub proof fn lemma_utf8_concat(a: Seq<char>, b: Seq<char>)
    ensures
        utf8_bytes(a + b) == utf8_bytes(a) + utf8_bytes(b),
    decreases a.len(),
{
    if a.len() > 0 {
        lemma_utf8_concat(a.drop_first(), b);
        assert((a + b).drop_first() =~= a.drop_first() + b);
        assert((a + b)[0] == a[0]);
        assert(utf8_bytes(a) + utf8_bytes(b) =~= vstd::utf8::encode_scalar(a[0] as u32) + (utf8_bytes(a.drop_first()) + utf8_bytes(b)));
    } else {
        assert(a + b =~= b);
        assert(utf8_bytes(a) =~= Seq::<u8>::empty());
        assert(utf8_bytes(a) + utf8_bytes(b) =~= utf8_bytes(b));
    }
}

} // verus!
