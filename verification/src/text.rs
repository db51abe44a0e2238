//! Small verified text utilities shared across the crate: conversion between
//! `&str` and `Vec<char>`, decimal rendering of integers, and substring
//! search over character vectors.

use vstd::prelude::*;
use vstd::std_specs::iter::IteratorSpec;

verus! {

/// The decimal digit `d` as a character, for `d < 10`.
pub open spec fn digit_char(d: nat) -> char {
    if d == 0 {
        '0'
    } else if d == 1 {
        '1'
    } else if d == 2 {
        '2'
    } else if d == 3 {
        '3'
    } else if d == 4 {
        '4'
    } else if d == 5 {
        '5'
    } else if d == 6 {
        '6'
    } else if d == 7 {
        '7'
    } else if d == 8 {
        '8'
    } else {
        '9'
    }
}

/// The usual decimal rendering of `n`, most significant digit first,
/// with no leading zeros (except for `n == 0`, rendered as "0").
pub open spec fn spec_decimal(n: nat) -> Seq<char>
    decreases n,
{
    if n < 10 {
        seq![digit_char(n)]
    } else {
        spec_decimal(n / 10) + seq![digit_char(n % 10)]
    }
}

fn digit_str(d: u128) -> (r: &'static str)
    requires
        d < 10,
    ensures
        r@ == seq![digit_char(d as nat)],
{
    proof {
        reveal_strlit("0");
        reveal_strlit("1");
        reveal_strlit("2");
        reveal_strlit("3");
        reveal_strlit("4");
        reveal_strlit("5");
        reveal_strlit("6");
        reveal_strlit("7");
        reveal_strlit("8");
        reveal_strlit("9");
    }
    if d == 0 {
        "0"
    } else if d == 1 {
        "1"
    } else if d == 2 {
        "2"
    } else if d == 3 {
        "3"
    } else if d == 4 {
        "4"
    } else if d == 5 {
        "5"
    } else if d == 6 {
        "6"
    } else if d == 7 {
        "7"
    } else if d == 8 {
        "8"
    } else {
        "9"
    }
}

/// Decimal rendering of a `u128`.
pub fn u128_to_string(n: u128) -> (r: String)
    ensures
        r@ == spec_decimal(n as nat),
    decreases n,
{
    if n < 10 {
        digit_str(n).to_owned()
    } else {
        let mut s = u128_to_string(n / 10);
        s.append(digit_str(n % 10));
        s
    }
}

/// Decimal rendering of a `u64`.
pub fn u64_to_string(n: u64) -> (r: String)
    ensures
        r@ == spec_decimal(n as nat),
{
    u128_to_string(n as u128)
}

/// Decimal rendering of a `usize`.
pub fn usize_to_string(n: usize) -> (r: String)
    ensures
        r@ == spec_decimal(n as nat),
{
    u128_to_string(n as u128)
}

/// The usual decimal rendering of a signed number: a minus sign for
/// negative values, then the digits of the absolute value.
pub open spec fn spec_decimal_signed(n: int) -> Seq<char> {
    if n < 0 {
        seq!['-'] + spec_decimal((-n) as nat)
    } else {
        spec_decimal(n as nat)
    }
}

/// Decimal rendering of an `i64`.
pub fn i64_to_string(n: i64) -> (r: String)
    ensures
        r@ == spec_decimal_signed(n as int),
{
    if n < 0 {
        let mag: u128 = (-(n as i128)) as u128;
        proof {
            reveal_strlit("-");
        }
        let mut s = "-".to_owned();
        let d = u128_to_string(mag);
        s.append(d.as_str());
        s
    } else {
        u128_to_string(n as u128)
    }
}

/// The characters of `s`, as a vector.
pub fn chars_of(s: &str) -> (r: Vec<char>)
    ensures
        r@ == s@,
{
    broadcast use vstd::string::group_string_axioms;

    let mut it = s.chars();
    let mut r: Vec<char> = Vec::new();
    loop
        invariant
            it.obeys_prophetic_iter_laws(),
            r@ + it.remaining() == s@,
        decreases s@.len() - r@.len(),
    {
        match it.next() {
            Some(c) => {
                r.push(c);
                proof {
                    assert(r@ =~= s@.subrange(0, r@.len() as int));
                    assert(r@ + it.remaining() =~= s@);
                }
            },
            None => {
                proof {
                    assert(r@ =~= s@);
                }
                return r;
            },
        }
    }
}

/// Relies on `String: FromIterator<char>` from std: collecting characters
/// yields a string whose characters are exactly those collected, in order.
#[verifier::external_body]
pub fn string_from_chars(v: &Vec<char>) -> (r: String)
    ensures
        r@ == v@,
{
    v.iter().collect()
}

/// Whether the characters of `s` are exactly those of `t`.
pub fn str_eq(a: &str, b: &str) -> (r: bool)
    ensures
        r == (a@ == b@),
{
    a.to_owned() == b.to_owned()
}

/// Whether the characters of `pat` occur in `s` starting at position `at`.
pub open spec fn spec_matches_at(s: Seq<char>, pat: Seq<char>, at: int) -> bool {
    &&& 0 <= at
    &&& at + pat.len() <= s.len()
    &&& s.subrange(at, at + pat.len() as int) == pat
}

/// The position of the first occurrence of the character `c` in `s` at or
/// after position `from`, if any.
pub open spec fn spec_first_char_from(s: Seq<char>, c: char, from: int) -> Option<int>
    decreases s.len() - from,
{
    if from < 0 || from >= s.len() {
        None
    } else if s[from] == c {
        Some(from)
    } else {
        spec_first_char_from(s, c, from + 1)
    }
}

/// The position of the first occurrence of `pat` in `s` at or after
/// position `from`, if any.
pub open spec fn spec_find_from(s: Seq<char>, pat: Seq<char>, from: int) -> Option<int>
    decreases s.len() - from,
{
    if from < 0 || from > s.len() {
        None
    } else if spec_matches_at(s, pat, from) {
        Some(from)
    } else if from == s.len() {
        None
    } else {
        spec_find_from(s, pat, from + 1)
    }
}

/// Test whether `pat` occurs in `hay` starting at position `at`.
pub fn matches_at(hay: &Vec<char>, pat: &Vec<char>, at: usize) -> (r: bool)
    ensures
        r == spec_matches_at(hay@, pat@, at as int),
{
    if at > hay.len() || pat.len() > hay.len() - at {
        proof {
            assert(!spec_matches_at(hay@, pat@, at as int));
        }
        return false;
    }
    let mut j: usize = 0;
    while j < pat.len()
        invariant
            j <= pat.len(),
            at + pat.len() <= hay.len(),
            forall|k: int| 0 <= k < j ==> hay@[at + k] == pat@[k],
        decreases pat.len() - j,
    {
        if hay[at + j] != pat[j] {
            proof {
                let jj = j as int;
                assert(hay@.subrange(at as int, at + pat@.len() as int)[jj] != pat@[jj]);
            }
            return false;
        }
        j = j + 1;
    }
    proof {
        assert(hay@.subrange(at as int, at + pat@.len() as int) =~= pat@);
    }
    true
}

/// Find the first occurrence of `pat` in `hay` at or after `from`.
pub fn find_from(hay: &Vec<char>, pat: &Vec<char>, from: usize) -> (r: Option<usize>)
    ensures
        match r {
            Some(i) => spec_find_from(hay@, pat@, from as int) == Some(i as int),
            None => spec_find_from(hay@, pat@, from as int) is None,
        },
{
    if from > hay.len() {
        return None;
    }
    let mut i: usize = from;
    loop
        invariant
            from <= i <= hay@.len(),
            spec_find_from(hay@, pat@, from as int) == spec_find_from(hay@, pat@, i as int),
        decreases hay.len() - i,
    {
        if matches_at(hay, pat, i) {
            return Some(i);
        }
        if i == hay.len() {
            return None;
        }
        i = i + 1;
    }
}

/// Find the first occurrence of the character `c` in `hay` at or after `from`.
pub fn find_char_from(hay: &Vec<char>, c: char, from: usize) -> (r: Option<usize>)
    ensures
        match r {
            Some(i) => spec_first_char_from(hay@, c, from as int) == Some(i as int) && from <= i
                < hay@.len(),
            None => spec_first_char_from(hay@, c, from as int) is None,
        },
{
    let mut i: usize = from;
    while i < hay.len()
        invariant
            from <= i,
            spec_first_char_from(hay@, c, from as int) == spec_first_char_from(
                hay@,
                c,
                i as int,
            ),
        decreases hay.len() - i,
    {
        if hay[i] == c {
            return Some(i);
        }
        i = i + 1;
    }
    None
}

/// Copy the characters of `v` in positions `[a, b)` into a new vector.
pub fn subvec(v: &Vec<char>, a: usize, b: usize) -> (r: Vec<char>)
    requires
        a <= b <= v@.len(),
    ensures
        r@ == v@.subrange(a as int, b as int),
{
    let mut r: Vec<char> = Vec::new();
    let mut i: usize = a;
    while i < b
        invariant
            a <= i <= b <= v@.len(),
            r@ == v@.subrange(a as int, i as int),
        decreases b - i,
    {
        r.push(v[i]);
        i = i + 1;
        proof {
            assert(r@ =~= v@.subrange(a as int, i as int));
        }
    }
    r
}

/// The pieces of `s` from position `pos` on, split at each occurrence of the
/// character `c` (the separator is consumed; `n` separators give `n + 1`
/// pieces).
pub open spec fn spec_split_from(s: Seq<char>, c: char, pos: int) -> Seq<Seq<char>>
    decreases s.len() - pos,
{
    if pos < 0 || pos > s.len() {
        Seq::empty()
    } else {
        match spec_first_char_from(s, c, pos) {
            Some(i) => if pos <= i < s.len() {
                seq![s.subrange(pos, i)] + spec_split_from(s, c, i + 1)
            } else {
                Seq::empty()
            },
            None => seq![s.subrange(pos, s.len() as int)],
        }
    }
}

/// `l` with one trailing carriage return removed, if it has one.
pub open spec fn spec_strip_cr(l: Seq<char>) -> Seq<char> {
    if l.len() > 0 && l.last() == '\r' {
        l.drop_last()
    } else {
        l
    }
}

/// The lines of `s`, as Rust's `str::lines` splits them: split at `'\n'`,
/// one trailing carriage return stripped from each line, and no final empty
/// line when the text ends with a newline.
pub open spec fn spec_lines(s: Seq<char>) -> Seq<Seq<char>> {
    if s.len() == 0 {
        Seq::empty()
    } else {
        let pieces = spec_split_from(s, '\n', 0);
        let kept = if pieces.last().len() == 0 {
            pieces.drop_last()
        } else {
            pieces
        };
        kept.map(|i: int, l: Seq<char>| spec_strip_cr(l))
    }
}

/// Lexicographic comparison of `a` and `b` from position `i` on, by
/// character code: `true` when `a` is not after `b`.
pub open spec fn spec_lex_le_from(a: Seq<char>, b: Seq<char>, i: int) -> bool
    decreases a.len() - i,
{
    if i < 0 {
        true
    } else if i >= a.len() {
        true
    } else if i >= b.len() {
        false
    } else if (a[i] as u32) < (b[i] as u32) {
        true
    } else if (a[i] as u32) > (b[i] as u32) {
        false
    } else {
        spec_lex_le_from(a, b, i + 1)
    }
}

/// Lexicographic order on character sequences, by character code. On
/// timestamps in the API's fixed `YYYY-MM-DDTHH:MM:SSZ` form this order is
/// the chronological order.
pub open spec fn spec_str_le(a: Seq<char>, b: Seq<char>) -> bool {
    spec_lex_le_from(a, b, 0)
}

/// The lexicographic order is total.
pub proof fn lemma_str_le_total(a: Seq<char>, b: Seq<char>)
    ensures
        spec_str_le(a, b) || spec_str_le(b, a),
{
    lemma_lex_le_total_from(a, b, 0);
}

proof fn lemma_lex_le_total_from(a: Seq<char>, b: Seq<char>, i: int)
    ensures
        spec_lex_le_from(a, b, i) || spec_lex_le_from(b, a, i),
    decreases a.len() - i,
{
    if 0 <= i && i < a.len() && i < b.len() && (a[i] as u32) == (b[i] as u32) {
        lemma_lex_le_total_from(a, b, i + 1);
    }
}

/// The lexicographic order is transitive.
pub proof fn lemma_str_le_trans(a: Seq<char>, b: Seq<char>, c: Seq<char>)
    requires
        spec_str_le(a, b),
        spec_str_le(b, c),
    ensures
        spec_str_le(a, c),
{
    lemma_lex_le_trans_from(a, b, c, 0);
}

proof fn lemma_lex_le_trans_from(a: Seq<char>, b: Seq<char>, c: Seq<char>, i: int)
    requires
        spec_lex_le_from(a, b, i),
        spec_lex_le_from(b, c, i),
    ensures
        spec_lex_le_from(a, c, i),
    decreases a.len() - i,
{
    if 0 <= i && i < a.len() && i < b.len() && i < c.len() && (a[i] as u32) == (b[i] as u32) && (
    b[i] as u32) == (c[i] as u32) {
        lemma_lex_le_trans_from(a, b, c, i + 1);
    }
}

/// Compare two character vectors lexicographically by character code.
pub fn chars_le(a: &Vec<char>, b: &Vec<char>) -> (r: bool)
    ensures
        r == spec_str_le(a@, b@),
{
    let mut i: usize = 0;
    loop
        invariant
            i <= a@.len(),
            spec_str_le(a@, b@) == spec_lex_le_from(a@, b@, i as int),
        decreases a@.len() - i,
    {
        if i >= a.len() {
            return true;
        }
        if i >= b.len() {
            return false;
        }
        let ca = a[i] as u32;
        let cb = b[i] as u32;
        if ca < cb {
            return true;
        }
        if ca > cb {
            return false;
        }
        i = i + 1;
    }
}

/// Compare two strings lexicographically by character code.
pub fn str_le(a: &str, b: &str) -> (r: bool)
    ensures
        r == spec_str_le(a@, b@),
{
    let ca = chars_of(a);
    let cb = chars_of(b);
    chars_le(&ca, &cb)
}

/// How often the character `c` occurs in `s`.
pub open spec fn spec_count_char(s: Seq<char>, c: char) -> nat
    decreases s.len(),
{
    if s.len() == 0 {
        0
    } else {
        spec_count_char(s.drop_last(), c) + (if s.last() == c {
            1nat
        } else {
            0
        })
    }
}

/// Occurrence counts add up over concatenation.
pub proof fn lemma_count_char_concat(a: Seq<char>, b: Seq<char>, c: char)
    ensures
        spec_count_char(a + b, c) == spec_count_char(a, c) + spec_count_char(b, c),
    decreases b.len(),
{
    if b.len() == 0 {
        assert(a + b =~= a);
    } else {
        assert((a + b).drop_last() =~= a + b.drop_last());
        assert((a + b).last() == b.last());
        lemma_count_char_concat(a, b.drop_last(), c);
    }
}

/// A sequence without the character has count zero.
pub proof fn lemma_count_char_zero(s: Seq<char>, c: char)
    requires
        forall|i: int| 0 <= i < s.len() ==> s[i] != c,
    ensures
        spec_count_char(s, c) == 0,
    decreases s.len(),
{
    if s.len() > 0 {
        lemma_count_char_zero(s.drop_last(), c);
    }
}

/// Before the first occurrence, the character does not occur.
pub proof fn lemma_spec_first_char_some_before(s: Seq<char>, c: char, from: int, k: int)
    requires
        spec_first_char_from(s, c, from) is Some,
        from <= k < spec_first_char_from(s, c, from)->0,
    ensures
        s[k] != c,
    decreases k - from,
{
    lemma_spec_first_char_some_bounds(s, c, from);
    if k > from {
        lemma_spec_first_char_some_before(s, c, from + 1, k);
    }
}

/// Whether `c` is an ASCII whitespace character.
pub open spec fn spec_is_ascii_space(c: char) -> bool {
    c == ' ' || c == '\t' || c == '\r' || c == '\n'
}

/// The position of the first character at or after `i` that is not ASCII
/// whitespace, or the length of `s`.
pub open spec fn spec_skip_spaces_from(s: Seq<char>, i: int) -> int
    decreases s.len() - i,
{
    if i < 0 || i >= s.len() {
        s.len() as int
    } else if spec_is_ascii_space(s[i]) {
        spec_skip_spaces_from(s, i + 1)
    } else {
        i
    }
}

/// One past the position of the last character before `j` that is not ASCII
/// whitespace, or 0.
pub open spec fn spec_rskip_spaces_to(s: Seq<char>, j: int) -> int
    decreases j,
{
    if j <= 0 || j > s.len() {
        0
    } else if spec_is_ascii_space(s[j - 1]) {
        spec_rskip_spaces_to(s, j - 1)
    } else {
        j
    }
}

/// `s` with leading and trailing ASCII whitespace removed.
pub open spec fn spec_trim(s: Seq<char>) -> Seq<char> {
    let a = spec_skip_spaces_from(s, 0);
    let b = spec_rskip_spaces_to(s, s.len() as int);
    if a <= b {
        s.subrange(a, b)
    } else {
        Seq::empty()
    }
}

/// Whether `c` is ASCII whitespace.
pub fn is_ascii_space(c: char) -> (r: bool)
    ensures
        r == spec_is_ascii_space(c),
{
    c == ' ' || c == '\t' || c == '\r' || c == '\n'
}

/// The characters of `v` with leading and trailing ASCII whitespace removed.
#[verifier::loop_isolation(false)]
pub fn trim_chars(v: &Vec<char>) -> (r: Vec<char>)
    ensures
        r@ == spec_trim(v@),
{
    let n = v.len();
    let mut a: usize = 0;
    while a < n && is_ascii_space(v[a])
        invariant
            a <= n == v@.len(),
            spec_skip_spaces_from(v@, 0) == spec_skip_spaces_from(v@, a as int),
        decreases n - a,
    {
        a = a + 1;
    }
    let mut b: usize = n;
    while b > a && is_ascii_space(v[b - 1])
        invariant
            a <= b <= n == v@.len(),
            spec_skip_spaces_from(v@, 0) == a as int,
            spec_rskip_spaces_to(v@, v@.len() as int) == spec_rskip_spaces_to(v@, b as int),
        decreases b,
    {
        b = b - 1;
    }
    let r = subvec(v, a, b);
    proof {
        if b == a {
            lemma_rskip_le(v@, b as int);
            assert(r@ =~= spec_trim(v@));
        }
    }
    r
}

proof fn lemma_rskip_le(s: Seq<char>, j: int)
    ensures
        spec_rskip_spaces_to(s, j) <= j || j < 0,
    decreases j,
{
    if !(j <= 0 || j > s.len()) && spec_is_ascii_space(s[j - 1]) {
        lemma_rskip_le(s, j - 1);
    }
}

/// Whether some element of `v` has exactly the characters of `s`.
pub fn contains_string(v: &Vec<String>, s: &String) -> (r: bool)
    ensures
        r == exists|k: int| 0 <= k < v@.len() && v@[k]@ == s@,
{
    let mut i: usize = 0;
    while i < v.len()
        invariant
            i <= v@.len(),
            forall|k: int| 0 <= k < i ==> v@[k]@ != s@,
        decreases v@.len() - i,
    {
        let t = &v[i];
        if t.eq(s) {
            return true;
        }
        i = i + 1;
    }
    false
}

/// A found pattern occurrence lies within bounds and matches.
pub proof fn lemma_spec_find_some_bounds(s: Seq<char>, pat: Seq<char>, from: int)
    requires
        spec_find_from(s, pat, from) is Some,
    ensures
        from <= spec_find_from(s, pat, from)->0,
        spec_matches_at(s, pat, spec_find_from(s, pat, from)->0),
    decreases s.len() - from,
{
    if !(from < 0 || from > s.len()) && !spec_matches_at(s, pat, from) && from != s.len() {
        lemma_spec_find_some_bounds(s, pat, from + 1);
    }
}

/// Where no occurrence was found, no position holds the character.
pub proof fn lemma_spec_first_char_none_bounds(s: Seq<char>, c: char, from: int, i: int)
    requires
        0 <= from <= i < s.len(),
        spec_first_char_from(s, c, from) is None,
    ensures
        s[i] != c,
    decreases i - from,
{
    if i > from {
        lemma_spec_first_char_none_bounds(s, c, from + 1, i);
    }
}

/// A found character occurrence lies within bounds and matches.
pub proof fn lemma_spec_first_char_some_bounds(s: Seq<char>, c: char, from: int)
    requires
        spec_first_char_from(s, c, from) is Some,
    ensures
        from <= spec_first_char_from(s, c, from)->0 < s.len(),
        s[spec_first_char_from(s, c, from)->0] == c,
    decreases s.len() - from,
{
    if !(from < 0 || from >= s.len()) && s[from] != c {
        lemma_spec_first_char_some_bounds(s, c, from + 1);
    }
}

/// Split `v` at each occurrence of the character `c`.
#[verifier::loop_isolation(false)]
pub fn split_char(v: &Vec<char>, c: char) -> (r: Vec<Vec<char>>)
    ensures
        r.deep_view() == spec_split_from(v@, c, 0),
{
    let n = v.len();
    let mut out: Vec<Vec<char>> = Vec::new();
    let mut pos: usize = 0;
    loop
        invariant
            pos <= n == v@.len(),
            spec_split_from(v@, c, 0) == out.deep_view() + spec_split_from(v@, c, pos as int),
        decreases v@.len() - pos,
    {
        match find_char_from(v, c, pos) {
            Some(i) => {
                proof {
                    lemma_spec_first_char_some_bounds(v@, c, pos as int);
                    assert(pos <= i < v@.len());
                }
                let ghost old_dv = out.deep_view();
                let piece = subvec(v, pos, i);
                out.push(piece);
                proof {
                    assert(out.deep_view() =~~= old_dv + seq![piece@]);
                    assert(spec_split_from(v@, c, pos as int) == seq![v@.subrange(
                        pos as int,
                        i as int,
                    )] + spec_split_from(v@, c, i + 1));
                    assert(spec_split_from(v@, c, 0) =~~= out.deep_view() + spec_split_from(
                        v@,
                        c,
                        i + 1,
                    ));
                }
                pos = i + 1;
            },
            None => {
                let ghost old_dv = out.deep_view();
                let piece = subvec(v, pos, n);
                out.push(piece);
                proof {
                    assert(out.deep_view() =~~= old_dv + seq![piece@]);
                    assert(spec_split_from(v@, c, 0) =~~= out.deep_view());
                }
                return out;
            },
        }
    }
}

/// The lines of `v`, as Rust's `str::lines` splits them.
#[verifier::loop_isolation(false)]
pub fn lines_of(v: &Vec<char>) -> (r: Vec<Vec<char>>)
    ensures
        r.deep_view() == spec_lines(v@),
{
    if v.len() == 0 {
        let out: Vec<Vec<char>> = Vec::new();
        proof {
            assert(out.deep_view() =~= spec_lines(v@));
        }
        return out;
    }
    let mut pieces = split_char(v, '\n');
    proof {
        lemma_split_from_nonempty(v@, '\n', 0);
    }
    if pieces[pieces.len() - 1].len() == 0 {
        pieces.pop();
        proof {
            assert(pieces.deep_view() =~~= spec_split_from(v@, '\n', 0).drop_last());
        }
    }
    let mut out: Vec<Vec<char>> = Vec::new();
    let ghost kept = pieces.deep_view();
    let mut i: usize = 0;
    while i < pieces.len()
        invariant
            i <= pieces@.len(),
            pieces.deep_view() == kept,
            out.deep_view() == kept.subrange(0, i as int).map(
                |k: int, l: Seq<char>| spec_strip_cr(l),
            ),
        decreases pieces@.len() - i,
    {
        let piece = &pieces[i];
        let stripped = if piece.len() > 0 && piece[piece.len() - 1] == '\r' {
            subvec(piece, 0, piece.len() - 1)
        } else {
            subvec(piece, 0, piece.len())
        };
        proof {
            assert(piece@ =~= piece@.subrange(0, piece@.len() as int));
            assert(stripped@ == spec_strip_cr(kept[i as int]));
        }
        let ghost old_dv = out.deep_view();
        out.push(stripped);
        i = i + 1;
        proof {
            assert(out.deep_view() =~~= old_dv + seq![stripped@]);
            assert(out.deep_view() =~~= kept.subrange(0, i as int).map(
                |k: int, l: Seq<char>| spec_strip_cr(l),
            ));
        }
    }
    proof {
        assert(kept.subrange(0, kept.len() as int) =~= kept);
        assert(out.deep_view() =~~= spec_lines(v@));
    }
    out
}

/// The lines joined back with a single newline between them.
pub open spec fn spec_join_newline(lines: Seq<Seq<char>>) -> Seq<char>
    decreases lines.len(),
{
    if lines.len() == 0 {
        Seq::empty()
    } else if lines.len() == 1 {
        lines[0]
    } else {
        spec_join_newline(lines.drop_last()) + seq!['\n'] + lines.last()
    }
}

/// The elements of `v` in reverse order.
pub fn reversed<T>(v: Vec<T>) -> (r: Vec<T>)
    ensures
        r@.len() == v@.len(),
        forall|j: int| 0 <= j < v@.len() ==> r@[j] == v@[v@.len() - 1 - j],
{
    let mut src = v;
    let mut out: Vec<T> = Vec::new();
    loop
        invariant
            src@.len() + out@.len() == v@.len(),
            src@ =~= v@.subrange(0, src@.len() as int),
            forall|j: int| 0 <= j < out@.len() ==> out@[j] == v@[v@.len() - 1 - j],
        decreases src@.len(),
    {
        match src.pop() {
            Some(x) => {
                out.push(x);
            },
            None => {
                return out;
            },
        }
    }
}

/// The parts joined with the separator between them.
pub open spec fn spec_join_with(parts: Seq<Seq<char>>, sep: Seq<char>) -> Seq<char>
    decreases parts.len(),
{
    if parts.len() == 0 {
        Seq::empty()
    } else if parts.len() == 1 {
        parts[0]
    } else {
        spec_join_with(parts.drop_last(), sep) + sep + parts.last()
    }
}

/// Join strings with a separator between them.
#[verifier::loop_isolation(false)]
pub fn join_with(parts: &Vec<String>, sep: &str) -> (r: String)
    ensures
        r@ == spec_join_with(parts.deep_view(), sep@),
{
    let ghost dv = parts.deep_view();
    let mut out = String::new();
    let mut i: usize = 0;
    while i < parts.len()
        invariant
            i <= parts@.len(),
            parts.deep_view() == dv,
            dv.len() == parts@.len(),
            out@ == spec_join_with(dv.subrange(0, i as int), sep@),
        decreases parts@.len() - i,
    {
        if i > 0 {
            out.append(sep);
        }
        out.append(parts[i].as_str());
        i = i + 1;
        proof {
            let pre = dv.subrange(0, i as int);
            assert(pre.drop_last() =~= dv.subrange(0, i - 1));
            assert(pre.last() == dv[i - 1]);
            assert(dv[i - 1] == parts@[i - 1].deep_view());
            assert(parts@[i - 1].deep_view() =~= parts@[i - 1]@);
        }
    }
    proof {
        assert(dv.subrange(0, dv.len() as int) =~= dv);
    }
    out
}

/// Splitting a nonempty text gives at least one piece.
pub proof fn lemma_split_from_nonempty(s: Seq<char>, c: char, pos: int)
    requires
        0 <= pos <= s.len(),
    ensures
        spec_split_from(s, c, pos).len() >= 1,
    decreases s.len() - pos,
{
    if spec_first_char_from(s, c, pos) is Some {
        lemma_spec_first_char_some_bounds(s, c, pos);
    }
}

/// Append all characters of `src` to `dst`.
pub fn extend_chars(dst: &mut Vec<char>, src: &Vec<char>)
    ensures
        final(dst)@ == old(dst)@ + src@,
{
    let mut i: usize = 0;
    while i < src.len()
        invariant
            i <= src@.len(),
            dst@ == old(dst)@ + src@.subrange(0, i as int),
        decreases src.len() - i,
    {
        dst.push(src[i]);
        i = i + 1;
        proof {
            assert(dst@ =~= old(dst)@ + src@.subrange(0, i as int));
        }
    }
    proof {
        assert(old(dst)@ + src@.subrange(0, src@.len() as int) =~= old(dst)@ + src@);
    }
}

} // verus!
