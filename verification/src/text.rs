//! Shared text machinery: searching, splitting, trimming, ASCII case
//! folding and substring containment, over byte and character sequences.
//!
//! Everything here is ordinary verified code except `push_char`, the one
//! place the crate relies on `String::push` to grow a string by a
//! character.

use vstd::prelude::*;

verus! {

// ---------------------------------------------------------------------
// Searching and splitting
// ---------------------------------------------------------------------
/// Position of the first occurrence of `x` in `s`, if any.
pub open spec fn find_elem<T>(s: Seq<T>, x: T) -> Option<int>
    decreases s.len(),
{
    if s.len() == 0 {
        None
    } else if s[0] == x {
        Some(0)
    } else {
        match find_elem(s.skip(1), x) {
            Some(i) => Some(i + 1),
            None => None,
        }
    }
}

/// `find_elem` returns the first occurrence and nothing else.
pub proof fn lemma_find_elem<T>(s: Seq<T>, x: T)
    ensures
        match find_elem(s, x) {
            Some(i) => 0 <= i < s.len() && s[i] == x && (forall|j: int|
                0 <= j < i ==> s[j] != x),
            None => forall|j: int| 0 <= j < s.len() ==> s[j] != x,
        },
    decreases s.len(),
{
    if s.len() == 0 {
    } else if s[0] == x {
    } else {
        let t = s.skip(1);
        lemma_find_elem(t, x);
        assert(forall|j: int| 0 <= j < t.len() ==> t[j] == s[j + 1]);
        match find_elem(t, x) {
            Some(i) => {
                assert(s[i + 1] == t[i]);
                assert forall|j: int| 0 <= j < i + 1 implies s[j] != x by {
                    if j > 0 {
                        assert(t[j - 1] != x);
                    }
                }
            },
            None => {
                assert forall|j: int| 0 <= j < s.len() implies s[j] != x by {
                    if j > 0 {
                        assert(t[j - 1] != x);
                    }
                }
            },
        }
    }
}

/// If `x` stands at `i` and nowhere earlier, `find_elem` returns `i`.
pub proof fn lemma_find_elem_is<T>(s: Seq<T>, x: T, i: int)
    requires
        0 <= i < s.len(),
        s[i] == x,
        forall|j: int| 0 <= j < i ==> s[j] != x,
    ensures
        find_elem(s, x) == Some(i),
{
    lemma_find_elem(s, x);
    match find_elem(s, x) {
        Some(k) => {
            if k < i {
                assert(s[k] != x);
            } else if i < k {
                assert(s[i] != x);
            }
        },
        None => {
            assert(s[i] != x);
        },
    }
}

/// `s` split on every occurrence of `x`, separators dropped; `n`
/// separators give `n + 1` parts, empty parts included.
pub open spec fn split_elem<T>(s: Seq<T>, x: T) -> Seq<Seq<T>>
    decreases s.len(),
    via split_elem_decreases::<T>
{
    match find_elem(s, x) {
        Some(i) => seq![s.take(i)] + split_elem(s.skip(i + 1), x),
        None => seq![s],
    }
}

#[via_fn]
proof fn split_elem_decreases<T>(s: Seq<T>, x: T) {
    lemma_find_elem(s, x);
}

// ---------------------------------------------------------------------
// ASCII classification and case folding
// ---------------------------------------------------------------------
/// ASCII whitespace, as a character.
pub open spec fn is_space_char(c: char) -> bool {
    c == ' ' || c == '\t' || c == '\n' || c == '\r' || c == '\u{b}' || c == '\u{c}'
}

/// ASCII whitespace, as a byte.
pub open spec fn is_space_byte(b: u8) -> bool {
    b == 32 || b == 9 || b == 10 || b == 13 || b == 11 || b == 12
}

/// ASCII lower-casing of one character; anything else is untouched.
pub open spec fn lower_char(c: char) -> char {
    if 'A' <= c && c <= 'Z' {
        ((c as u32 + 32) as u8) as char
    } else {
        c
    }
}

/// ASCII upper-casing of one character; anything else is untouched.
pub open spec fn upper_char(c: char) -> char {
    if 'a' <= c && c <= 'z' {
        ((c as u32 - 32) as u8) as char
    } else {
        c
    }
}

/// ASCII lower-casing of a whole sequence.
pub open spec fn lower_seq(s: Seq<char>) -> Seq<char> {
    s.map_values(|c: char| lower_char(c))
}

/// ASCII upper-casing of a whole sequence.
pub open spec fn upper_seq(s: Seq<char>) -> Seq<char> {
    s.map_values(|c: char| upper_char(c))
}

// ---------------------------------------------------------------------
// Trimming
// ---------------------------------------------------------------------
/// `s` without its leading characters that satisfy `p`.
pub open spec fn trim_start_by<T>(s: Seq<T>, p: spec_fn(T) -> bool) -> Seq<T>
    decreases s.len(),
{
    if s.len() > 0 && p(s.first()) {
        trim_start_by(s.skip(1), p)
    } else {
        s
    }
}

/// `s` without its trailing characters that satisfy `p`.
pub open spec fn trim_end_by<T>(s: Seq<T>, p: spec_fn(T) -> bool) -> Seq<T>
    decreases s.len(),
{
    if s.len() > 0 && p(s.last()) {
        trim_end_by(s.drop_last(), p)
    } else {
        s
    }
}

/// `s` without leading and trailing characters that satisfy `p`.
pub open spec fn trim_by<T>(s: Seq<T>, p: spec_fn(T) -> bool) -> Seq<T> {
    trim_end_by(trim_start_by(s, p), p)
}

/// `s` with ASCII whitespace removed at both ends.
pub open spec fn trim_ws(s: Seq<char>) -> Seq<char> {
    trim_by(s, |c: char| is_space_char(c))
}

pub proof fn lemma_trim_start_by<T>(s: Seq<T>, p: spec_fn(T) -> bool, lo: int)
    requires
        0 <= lo <= s.len(),
        forall|k: int| 0 <= k < lo ==> p(s[k]),
        lo == s.len() || !p(s[lo]),
    ensures
        trim_start_by(s, p) == s.skip(lo),
    decreases lo,
{
    if lo == 0 {
        assert(s.skip(0) =~= s);
    } else {
        assert(p(s.first()));
        let t = s.skip(1);
        assert(forall|k: int| 0 <= k < t.len() ==> t[k] == s[k + 1]);
        lemma_trim_start_by(t, p, lo - 1);
        assert(t.skip(lo - 1) =~= s.skip(lo));
    }
}

pub proof fn lemma_trim_end_by<T>(s: Seq<T>, p: spec_fn(T) -> bool, hi: int)
    requires
        0 <= hi <= s.len(),
        forall|k: int| hi <= k < s.len() ==> p(s[k]),
        hi == 0 || !p(s[hi - 1]),
    ensures
        trim_end_by(s, p) == s.take(hi),
    decreases s.len() - hi,
{
    if hi == s.len() {
        if s.len() > 0 && p(s.last()) {
            assert(false);
        }
        assert(s.take(hi) =~= s);
    } else {
        assert(p(s.last()));
        let t = s.drop_last();
        lemma_trim_end_by(t, p, hi);
        assert(t.take(hi) =~= s.take(hi));
    }
}

// ---------------------------------------------------------------------
// Prefixes and substrings
// ---------------------------------------------------------------------
/// `p` is a prefix of `s`.
pub open spec fn has_prefix<T>(s: Seq<T>, p: Seq<T>) -> bool {
    p.len() <= s.len() && s.take(p.len() as int) == p
}

/// `p` occurs in `s` starting at position `i`.
pub open spec fn occurs_at<T>(s: Seq<T>, p: Seq<T>, i: int) -> bool {
    0 <= i && i + p.len() <= s.len() && s.subrange(i, i + p.len()) == p
}

/// `p` occurs somewhere in `s`.
pub open spec fn contains_seq<T>(s: Seq<T>, p: Seq<T>) -> bool {
    exists|i: int| occurs_at(s, p, i)
}

/// Position of the first occurrence of `p` in `s`, if any.
pub open spec fn find_sub<T>(s: Seq<T>, p: Seq<T>) -> Option<int>
    decreases s.len(),
{
    if p.len() > s.len() {
        None
    } else if s.take(p.len() as int) == p {
        Some(0)
    } else if s.len() == 0 {
        None
    } else {
        match find_sub(s.skip(1), p) {
            Some(i) => Some(i + 1),
            None => None,
        }
    }
}

/// `find_sub` returns the first occurrence and nothing else.
pub proof fn lemma_find_sub<T>(s: Seq<T>, p: Seq<T>)
    ensures
        match find_sub(s, p) {
            Some(i) => occurs_at(s, p, i) && (forall|j: int|
                0 <= j < i ==> !occurs_at(s, p, j)),
            None => forall|j: int| !occurs_at(s, p, j),
        },
    decreases s.len(),
{
    if p.len() > s.len() {
    } else if s.take(p.len() as int) == p {
        assert(s.subrange(0, p.len() as int) =~= s.take(p.len() as int));
    } else if s.len() == 0 {
        assert forall|j: int| !occurs_at(s, p, j) by {
            if occurs_at(s, p, j) {
                assert(s.subrange(j, j + p.len()) =~= s.take(p.len() as int));
            }
        }
    } else {
        let t = s.skip(1);
        lemma_find_sub(t, p);
        assert forall|j: int| 1 <= j && occurs_at(s, p, j) implies occurs_at(t, p, j - 1) by {
            assert(t.subrange(j - 1, j - 1 + p.len()) =~= s.subrange(j, j + p.len()));
        }
        assert forall|j: int| occurs_at(t, p, j) implies occurs_at(s, p, j + 1) by {
            assert(t.subrange(j, j + p.len()) =~= s.subrange(j + 1, j + 1 + p.len()));
        }
        assert forall|j: int| j == 0 && occurs_at(s, p, j) implies s.take(p.len() as int) == p by {
            assert(s.subrange(0, p.len() as int) =~= s.take(p.len() as int));
        }
    }
}

/// `contains_seq` holds exactly when `find_sub` finds something.
pub proof fn lemma_contains_is_find<T>(s: Seq<T>, p: Seq<T>)
    ensures
        contains_seq(s, p) <==> find_sub(s, p) is Some,
{
    lemma_find_sub(s, p);
    if contains_seq(s, p) {
        let j = choose|j: int| occurs_at(s, p, j);
        if find_sub(s, p) is None {
            assert(!occurs_at(s, p, j));
        }
    }
}

/// The text split into lines as a display loop sees it: separators are
/// newlines, and a trailing newline opens no extra empty line.
pub open spec fn lines_of(s: Seq<char>) -> Seq<Seq<char>> {
    if s.len() == 0 {
        Seq::empty()
    } else if s.last() == '\n' {
        split_elem(s.drop_last(), '\n')
    } else {
        split_elem(s, '\n')
    }
}

// ---------------------------------------------------------------------
// Runs of one character class
// ---------------------------------------------------------------------
/// Length of the maximal prefix of `s` whose characters are all
/// whitespace (`space` true) or all non-whitespace (`space` false).
pub open spec fn run_len(s: Seq<char>, space: bool) -> int
    decreases s.len(),
{
    if s.len() == 0 || is_space_char(s[0]) != space {
        0
    } else {
        1 + run_len(s.skip(1), space)
    }
}

pub proof fn lemma_run_len_bounds(s: Seq<char>, space: bool)
    ensures
        0 <= run_len(s, space) <= s.len(),
    decreases s.len(),
{
    if s.len() == 0 || is_space_char(s[0]) != space {
    } else {
        lemma_run_len_bounds(s.skip(1), space);
    }
}

/// A run is exactly the longest prefix of one class.
pub proof fn lemma_run_len_is(s: Seq<char>, space: bool, n: int)
    requires
        0 <= n <= s.len(),
        forall|k: int| 0 <= k < n ==> is_space_char(s[k]) == space,
        n == s.len() || is_space_char(s[n]) != space,
    ensures
        run_len(s, space) == n,
    decreases n,
{
    if n == 0 {
    } else {
        let t = s.skip(1);
        assert(forall|k: int| 0 <= k < t.len() ==> t[k] == s[k + 1]);
        lemma_run_len_is(t, space, n - 1);
    }
}

// ---------------------------------------------------------------------
// Executable helpers
// ---------------------------------------------------------------------
/// Position of the first `x` in `s`, if any.
pub fn find_char(s: &[char], x: char) -> (r: Option<usize>)
    ensures
        match r {
            Some(i) => find_elem(s@, x) == Some(i as int),
            None => find_elem(s@, x) is None,
        },
{
    proof {
        lemma_find_elem(s@, x);
    }
    let mut i: usize = 0;
    while i < s.len()
        invariant
            0 <= i <= s@.len(),
            forall|j: int| 0 <= j < i ==> s@[j] != x,
        decreases s@.len() - i,
    {
        if s[i] == x {
            proof {
                lemma_find_elem_is(s@, x, i as int);
            }
            return Some(i);
        }
        i = i + 1;
    }
    proof {
        if let Some(k) = find_elem(s@, x) {
            assert(s@[k] == x);
            assert(false);
        }
    }
    None
}

/// Relies on `String::push`: appends exactly the given character.
#[verifier::external_body]
pub fn push_char(s: &mut String, c: char)
    ensures
        final(s)@ == old(s)@.push(c),
{
    s.push(c);
}

/// The characters of `s`, as a vector.
pub fn chars_of(s: &str) -> (r: Vec<char>)
    ensures
        r@ == s@,
{
    let n = s.unicode_len();
    let mut r: Vec<char> = Vec::new();
    let mut i: usize = 0;
    while i < n
        invariant
            n == s@.len(),
            0 <= i <= n,
            r@ == s@.take(i as int),
        decreases n - i,
    {
        r.push(s.get_char(i));
        proof {
            assert(s@.take(i + 1) =~= s@.take(i as int).push(s@[i as int]));
        }
        i = i + 1;
    }
    proof {
        assert(s@.take(n as int) =~= s@);
    }
    r
}

/// The string holding exactly the characters of `v`.
pub fn string_of(v: &[char]) -> (r: String)
    ensures
        r@ == v@,
{
    let mut r = String::new();
    let mut i: usize = 0;
    while i < v.len()
        invariant
            0 <= i <= v@.len(),
            r@ == v@.take(i as int),
        decreases v@.len() - i,
    {
        push_char(&mut r, v[i]);
        proof {
            assert(v@.take(i + 1) =~= v@.take(i as int).push(v@[i as int]));
        }
        i = i + 1;
    }
    proof {
        assert(v@.take(v@.len() as int) =~= v@);
    }
    r
}

/// Element-wise equality of two character slices.
pub fn chars_eq(a: &[char], b: &[char]) -> (r: bool)
    ensures
        r == (a@ == b@),
{
    if a.len() != b.len() {
        proof {
            assert(a@ != b@);
        }
        return false;
    }
    let mut i: usize = 0;
    while i < a.len()
        invariant
            a@.len() == b@.len(),
            0 <= i <= a@.len(),
            forall|j: int| 0 <= j < i ==> a@[j] == b@[j],
        decreases a@.len() - i,
    {
        if a[i] != b[i] {
            return false;
        }
        i = i + 1;
    }
    proof {
        assert(a@ =~= b@);
    }
    true
}

/// Element-wise equality of two byte slices.
pub fn bytes_eq(a: &[u8], b: &[u8]) -> (r: bool)
    ensures
        r == (a@ == b@),
{
    if a.len() != b.len() {
        proof {
            assert(a@ != b@);
        }
        return false;
    }
    let mut i: usize = 0;
    while i < a.len()
        invariant
            a@.len() == b@.len(),
            0 <= i <= a@.len(),
            forall|j: int| 0 <= j < i ==> a@[j] == b@[j],
        decreases a@.len() - i,
    {
        if a[i] != b[i] {
            return false;
        }
        i = i + 1;
    }
    proof {
        assert(a@ =~= b@);
    }
    true
}

/// Whether `c` is ASCII whitespace.
pub fn is_space_char_exec(c: char) -> (r: bool)
    ensures
        r == is_space_char(c),
{
    c == ' ' || c == '\t' || c == '\n' || c == '\r' || c == '\u{b}' || c == '\u{c}'
}

/// Whether `b` is ASCII whitespace.
pub fn is_space_byte_exec(b: u8) -> (r: bool)
    ensures
        r == is_space_byte(b),
{
    b == 32 || b == 9 || b == 10 || b == 13 || b == 11 || b == 12
}

/// ASCII lower-casing of one character.
pub fn lower_char_exec(c: char) -> (r: char)
    ensures
        r == lower_char(c),
{
    if 'A' <= c && c <= 'Z' {
        ((c as u32 + 32) as u8) as char
    } else {
        c
    }
}

/// ASCII upper-casing of one character.
pub fn upper_char_exec(c: char) -> (r: char)
    ensures
        r == upper_char(c),
{
    if 'a' <= c && c <= 'z' {
        ((c as u32 - 32) as u8) as char
    } else {
        c
    }
}

/// ASCII lower-casing of a character slice.
pub fn lower_chars(s: &[char]) -> (r: Vec<char>)
    ensures
        r@ == lower_seq(s@),
{
    let mut r: Vec<char> = Vec::new();
    let mut i: usize = 0;
    while i < s.len()
        invariant
            0 <= i <= s@.len(),
            r@ == lower_seq(s@.take(i as int)),
        decreases s@.len() - i,
    {
        r.push(lower_char_exec(s[i]));
        proof {
            assert(lower_seq(s@.take(i + 1)) =~= lower_seq(s@.take(i as int)).push(
                lower_char(s@[i as int]),
            ));
        }
        i = i + 1;
    }
    proof {
        assert(s@.take(s@.len() as int) =~= s@);
    }
    r
}

/// ASCII upper-casing of a character slice.
pub fn upper_chars(s: &[char]) -> (r: Vec<char>)
    ensures
        r@ == upper_seq(s@),
{
    let mut r: Vec<char> = Vec::new();
    let mut i: usize = 0;
    while i < s.len()
        invariant
            0 <= i <= s@.len(),
            r@ == upper_seq(s@.take(i as int)),
        decreases s@.len() - i,
    {
        r.push(upper_char_exec(s[i]));
        proof {
            assert(upper_seq(s@.take(i + 1)) =~= upper_seq(s@.take(i as int)).push(
                upper_char(s@[i as int]),
            ));
        }
        i = i + 1;
    }
    proof {
        assert(s@.take(s@.len() as int) =~= s@);
    }
    r
}

/// The subslice of `s` with ASCII whitespace removed at both ends.
pub fn trim_chars<'a>(s: &'a [char]) -> (r: &'a [char])
    ensures
        r@ == trim_by(s@, |c: char| is_space_char(c)),
{
    let mut lo: usize = 0;
    while lo < s.len() && is_space_char_exec(s[lo])
        invariant
            0 <= lo <= s@.len(),
            forall|k: int| 0 <= k < lo ==> is_space_char(s@[k]),
        decreases s@.len() - lo,
    {
        lo = lo + 1;
    }
    let mut hi: usize = s.len();
    while hi > lo && is_space_char_exec(s[hi - 1])
        invariant
            lo <= hi <= s@.len(),
            forall|k: int| 0 <= k < lo ==> is_space_char(s@[k]),
            forall|k: int| hi <= k < s@.len() ==> is_space_char(s@[k]),
        decreases hi,
    {
        hi = hi - 1;
    }
    proof {
        let p = |c: char| is_space_char(c);
        assert forall|k: int| 0 <= k < lo implies p(s@[k]) by {
            assert(is_space_char(s@[k]));
        }
        assert forall|k: int| hi <= k < s@.len() implies p(s@[k]) by {
            assert(is_space_char(s@[k]));
        }
        if lo < s@.len() {
            assert(!p(s@[lo as int]));
        }
        lemma_trim_start_by(s@, p, lo as int);
        let t = s@.skip(lo as int);
        assert(forall|k: int| 0 <= k < t.len() ==> t[k] == s@[k + lo]);
        if hi == lo {
            lemma_trim_end_by(t, p, 0);
        } else {
            assert(!p(s@[hi - 1]));
            lemma_trim_end_by(t, p, hi - lo);
        }
        assert(t.take(hi - lo) =~= s@.subrange(lo as int, hi as int));
    }
    vstd::slice::slice_subrange(s, lo, hi)
}

/// The subslice of `s` with ASCII whitespace removed at both ends.
pub fn trim_bytes<'a>(s: &'a [u8]) -> (r: &'a [u8])
    ensures
        r@ == trim_by(s@, |b: u8| is_space_byte(b)),
{
    let mut lo: usize = 0;
    while lo < s.len() && is_space_byte_exec(s[lo])
        invariant
            0 <= lo <= s@.len(),
            forall|k: int| 0 <= k < lo ==> is_space_byte(s@[k]),
        decreases s@.len() - lo,
    {
        lo = lo + 1;
    }
    let mut hi: usize = s.len();
    while hi > lo && is_space_byte_exec(s[hi - 1])
        invariant
            lo <= hi <= s@.len(),
            forall|k: int| 0 <= k < lo ==> is_space_byte(s@[k]),
            forall|k: int| hi <= k < s@.len() ==> is_space_byte(s@[k]),
        decreases hi,
    {
        hi = hi - 1;
    }
    proof {
        let p = |b: u8| is_space_byte(b);
        assert forall|k: int| 0 <= k < lo implies p(s@[k]) by {
            assert(is_space_byte(s@[k]));
        }
        assert forall|k: int| hi <= k < s@.len() implies p(s@[k]) by {
            assert(is_space_byte(s@[k]));
        }
        if lo < s@.len() {
            assert(!p(s@[lo as int]));
        }
        lemma_trim_start_by(s@, p, lo as int);
        let t = s@.skip(lo as int);
        assert(forall|k: int| 0 <= k < t.len() ==> t[k] == s@[k + lo]);
        if hi == lo {
            lemma_trim_end_by(t, p, 0);
        } else {
            assert(!p(s@[hi - 1]));
            lemma_trim_end_by(t, p, hi - lo);
        }
        assert(t.take(hi - lo) =~= s@.subrange(lo as int, hi as int));
    }
    vstd::slice::slice_subrange(s, lo, hi)
}

/// The lines of `s`, split on newline characters; empty parts included.
pub fn split_lines_chars(s: &[char]) -> (r: Vec<Vec<char>>)
    ensures
        r@.map_values(|l: Vec<char>| l@) == split_elem(s@, '\n'),
{
    let mut r: Vec<Vec<char>> = Vec::new();
    let mut pos: usize = 0;
    proof {
        assert(s@.skip(0) =~= s@);
        assert(r@.map_values(|l: Vec<char>| l@) =~= Seq::<Seq<char>>::empty());
        assert(Seq::<Seq<char>>::empty() + split_elem(s@, '\n') =~= split_elem(s@, '\n'));
    }
    loop
        invariant_except_break
            0 <= pos <= s@.len(),
            split_elem(s@, '\n') =~= r@.map_values(|l: Vec<char>| l@) + split_elem(
                s@.skip(pos as int),
                '\n',
            ),
        ensures
            r@.map_values(|l: Vec<char>| l@) =~= split_elem(s@, '\n'),
        decreases s@.len() - pos,
    {
        let rest = vstd::slice::slice_subrange(s, pos, s.len());
        proof {
            lemma_find_elem(rest@, '\n');
        }
        match find_char(rest, '\n') {
            Some(i) => {
                let part = vstd::slice::slice_to_vec(vstd::slice::slice_subrange(rest, 0, i));
                proof {
                    assert(part@ =~= rest@.take(i as int));
                    assert(split_elem(rest@, '\n') == seq![rest@.take(i as int)] + split_elem(
                        rest@.skip(i + 1),
                        '\n',
                    ));
                    assert(s@.skip(pos + i + 1) =~= rest@.skip(i + 1));
                    assert(r@.push(part).map_values(|l: Vec<char>| l@) =~= r@.map_values(
                        |l: Vec<char>| l@,
                    ).push(part@));
                }
                r.push(part);
                pos = pos + i + 1;
            },
            None => {
                let part = vstd::slice::slice_to_vec(rest);
                proof {
                    assert(split_elem(rest@, '\n') == seq![rest@]);
                    assert(r@.push(part).map_values(|l: Vec<char>| l@) =~= r@.map_values(
                        |l: Vec<char>| l@,
                    ).push(part@));
                }
                r.push(part);
                break;
            },
        }
    }
    r
}

/// Append the characters of `src` to `dst`.
pub fn append_chars(dst: &mut Vec<char>, src: &[char])
    ensures
        final(dst)@ == old(dst)@ + src@,
{
    let mut i: usize = 0;
    proof {
        assert(dst@ =~= old(dst)@ + src@.take(0));
    }
    while i < src.len()
        invariant
            0 <= i <= src@.len(),
            dst@ == old(dst)@ + src@.take(i as int),
        decreases src@.len() - i,
    {
        dst.push(src[i]);
        proof {
            assert((old(dst)@ + src@.take(i as int)).push(src@[i as int]) =~= old(dst)@
                + src@.take(i + 1));
        }
        i = i + 1;
    }
    proof {
        assert(src@.take(src@.len() as int) =~= src@);
    }
}

/// Whether `p` is a prefix of `s`, for character slices.
pub fn starts_with_chars(s: &[char], p: &[char]) -> (r: bool)
    ensures
        r == has_prefix(s@, p@),
{
    if p.len() > s.len() {
        return false;
    }
    let mut i: usize = 0;
    while i < p.len()
        invariant
            p@.len() <= s@.len(),
            0 <= i <= p@.len(),
            forall|j: int| 0 <= j < i ==> s@[j] == p@[j],
        decreases p@.len() - i,
    {
        if s[i] != p[i] {
            proof {
                assert(s@.take(p@.len() as int)[i as int] != p@[i as int]);
            }
            return false;
        }
        i = i + 1;
    }
    proof {
        assert(s@.take(p@.len() as int) =~= p@);
    }
    true
}

/// Whether `p` is a prefix of `s`, for byte slices.
pub fn starts_with_bytes(s: &[u8], p: &[u8]) -> (r: bool)
    ensures
        r == has_prefix(s@, p@),
{
    if p.len() > s.len() {
        return false;
    }
    let mut i: usize = 0;
    while i < p.len()
        invariant
            p@.len() <= s@.len(),
            0 <= i <= p@.len(),
            forall|j: int| 0 <= j < i ==> s@[j] == p@[j],
        decreases p@.len() - i,
    {
        if s[i] != p[i] {
            proof {
                assert(s@.take(p@.len() as int)[i as int] != p@[i as int]);
            }
            return false;
        }
        i = i + 1;
    }
    proof {
        assert(s@.take(p@.len() as int) =~= p@);
    }
    true
}

/// Position of the first occurrence of `p` in `s`, if any.
pub fn find_sub_chars(s: &[char], p: &[char]) -> (r: Option<usize>)
    ensures
        match r {
            Some(i) => find_sub(s@, p@) == Some(i as int),
            None => find_sub(s@, p@) is None,
        },
{
    proof {
        lemma_find_sub(s@, p@);
    }
    if p.len() > s.len() {
        return None;
    }
    if p.len() == 0 {
        proof {
            assert(s@.take(0) =~= p@);
        }
        return Some(0);
    }
    let slen = s.len();
    let plen = p.len();
    let m = slen - plen;
    let mut i: usize = 0;
    while i <= m
        invariant
            slen == s@.len(),
            plen == p@.len(),
            1 <= plen <= slen,
            m == slen - plen,
            0 <= i <= m + 1,
            forall|j: int| 0 <= j < i ==> !occurs_at(s@, p@, j),
        decreases m + 1 - i,
    {
        let window = vstd::slice::slice_subrange(s, i, i + plen);
        if chars_eq(window, p) {
            proof {
                assert(occurs_at(s@, p@, i as int));
                lemma_find_sub(s@, p@);
                match find_sub(s@, p@) {
                    Some(k) => {
                        if k < i {
                            assert(!occurs_at(s@, p@, k));
                        } else if (i as int) < k {
                            assert(!occurs_at(s@, p@, i as int));
                        }
                    },
                    None => {
                        assert(!occurs_at(s@, p@, i as int));
                    },
                }
            }
            return Some(i);
        }
        i = i + 1;
    }
    proof {
        if let Some(k) = find_sub(s@, p@) {
            assert(occurs_at(s@, p@, k));
            assert(false);
        }
    }
    None
}

/// Whether `p` occurs anywhere in `s`.
pub fn contains_chars(s: &[char], p: &[char]) -> (r: bool)
    ensures
        r == contains_seq(s@, p@),
{
    proof {
        lemma_contains_is_find(s@, p@);
    }
    match find_sub_chars(s, p) {
        Some(_) => true,
        None => false,
    }
}

} // verus!
