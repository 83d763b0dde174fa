//! Characters, positions and literal rewriting over sequences of characters.
use vstd::prelude::*;

verus! {

/// Whether the regex class `\w` (Unicode word characters) holds `c`.
pub uninterp spec fn regex_word(c: char) -> bool;

/// Whether `char::is_whitespace` (Unicode `White_Space`) holds `c`.
pub uninterp spec fn white_space(c: char) -> bool;

pub open spec fn is_ascii_char(c: char) -> bool {
    (c as u32) < 128
}

/// Word characters: ASCII letters, digits and `_`, and beyond ASCII the class `\w`.
pub open spec fn is_word(c: char) -> bool {
    if is_ascii_char(c) {
        let u = c as u32;
        (97 <= u && u <= 122) || (65 <= u && u <= 90) || (48 <= u && u <= 57) || u == 95
    } else {
        regex_word(c)
    }
}

/// Whitespace: ASCII space, tab, line feed, vertical tab, form feed and carriage return,
/// and beyond ASCII the Unicode `White_Space` property.
pub open spec fn is_space(c: char) -> bool {
    if is_ascii_char(c) {
        let u = c as u32;
        u == 32 || (9 <= u && u <= 13)
    } else {
        white_space(c)
    }
}

/// Relies on regex: whether the pattern `^\w$` matches the one-character string of `c`.
#[verifier::external_body]
fn regex_word_char(c: char) -> (r: bool)
    ensures
        r == regex_word(c),
{
    let mut buf = [0u8; 4];
    regex::Regex::new(r"^\w$").unwrap().is_match(c.encode_utf8(&mut buf))
}

/// Relies on char::is_whitespace: the Unicode `White_Space` property of `c`.
#[verifier::external_body]
fn std_white_space(c: char) -> (r: bool)
    ensures
        r == white_space(c),
{
    c.is_whitespace()
}

/// The characters of `s` in order.
pub(crate) fn chars_of(s: &str) -> (r: Vec<char>)
    ensures
        r@ == s@,
{
    broadcast use vstd::string::axiom_spec_iter;

    let mut r: Vec<char> = Vec::new();
    for c in it: s.chars()
        invariant
            it.seq() == s@,
            r@ == it.seq().subrange(0, it.index() as int),
    {
        r.push(c);
    }
    assert(r@ =~= s@);
    r
}

/// Relies on String::from_iter: the string made of the given characters in order.
#[verifier::external_body]
pub(crate) fn string_of(v: &[char]) -> (r: String)
    ensures
        r@ == v@,
{
    String::from_iter(v.iter())
}

pub fn is_word_char(c: char) -> (r: bool)
    ensures
        r == is_word(c),
{
    let u = c as u32;
    if u < 128 {
        (97 <= u && u <= 122) || (65 <= u && u <= 90) || (48 <= u && u <= 57) || u == 95
    } else {
        regex_word_char(c)
    }
}

pub fn is_space_char(c: char) -> (r: bool)
    ensures
        r == is_space(c),
{
    let u = c as u32;
    if u < 128 {
        u == 32 || (9 <= u && u <= 13)
    } else {
        std_white_space(c)
    }
}

/// A word character stands right before position `i`.
pub open spec fn word_before(s: Seq<char>, i: int) -> bool {
    0 < i <= s.len() && is_word(s[i - 1])
}

/// A word character stands at position `i`.
pub open spec fn word_at(s: Seq<char>, i: int) -> bool {
    0 <= i < s.len() && is_word(s[i])
}

/// A word boundary (`\b`) at position `i`.
pub open spec fn boundary(s: Seq<char>, i: int) -> bool {
    word_before(s, i) != word_at(s, i)
}

/// `p` occurs in `s` starting at `i`.
pub open spec fn occurs_at(s: Seq<char>, i: int, p: Seq<char>) -> bool {
    0 <= i && i + p.len() <= s.len() && s.subrange(i, i + p.len()) == p
}

pub open spec fn contains(s: Seq<char>, p: Seq<char>) -> bool {
    exists|i: int| occurs_at(s, i, p)
}

/// An occurrence of `p` at `i`, with a word boundary before it when `left`
/// and after it when `right`.
pub open spec fn hit(s: Seq<char>, i: int, p: Seq<char>, left: bool, right: bool) -> bool {
    &&& occurs_at(s, i, p)
    &&& left ==> boundary(s, i)
    &&& right ==> boundary(s, i + p.len())
}

/// The rest of `s` from `i` on, with every occurrence of `p` found scanning left to
/// right (each one resuming after the previous) replaced by `r`.
pub open spec fn replace_from(
    s: Seq<char>,
    p: Seq<char>,
    r: Seq<char>,
    left: bool,
    right: bool,
    i: int,
) -> Seq<char>
    decreases s.len() - i,
{
    if i < 0 || i >= s.len() {
        Seq::empty()
    } else if p.len() == 0 {
        s.subrange(i, s.len() as int)
    } else if hit(s, i, p, left, right) {
        r + replace_from(s, p, r, left, right, i + p.len())
    } else {
        seq![s[i]] + replace_from(s, p, r, left, right, i + 1)
    }
}

/// Every occurrence of `p` in `s` replaced by `r` (as `str::replace` does).
pub open spec fn replace_literal(s: Seq<char>, p: Seq<char>, r: Seq<char>) -> Seq<char> {
    replace_from(s, p, r, false, false, 0)
}

/// First index at or after `i` whose character is not whitespace.
pub open spec fn space_end(s: Seq<char>, i: int) -> int
    decreases s.len() - i,
{
    if 0 <= i < s.len() && is_space(s[i]) {
        space_end(s, i + 1)
    } else {
        i
    }
}

/// First index at or after `i` whose character is not a word character.
pub open spec fn word_end(s: Seq<char>, i: int) -> int
    decreases s.len() - i,
{
    if 0 <= i < s.len() && is_word(s[i]) {
        word_end(s, i + 1)
    } else {
        i
    }
}

/// Index just past the last character before `j` that is not whitespace.
pub open spec fn space_start(s: Seq<char>, j: int) -> int
    decreases j,
{
    if 0 < j <= s.len() && is_space(s[j - 1]) {
        space_start(s, j - 1)
    } else {
        j
    }
}

/// `s` without leading and trailing whitespace (as `str::trim` does).
pub open spec fn trim(s: Seq<char>) -> Seq<char> {
    let a = space_end(s, 0);
    let b = space_start(s, s.len() as int);
    if a < b {
        s.subrange(a, b)
    } else {
        Seq::empty()
    }
}

/// First index at or after `i` holding `c`, or the length when there is none.
pub open spec fn find_char(s: Seq<char>, i: int, c: char) -> int
    decreases s.len() - i,
{
    if i < 0 || i >= s.len() {
        s.len() as int
    } else if s[i] == c {
        i
    } else {
        find_char(s, i + 1, c)
    }
}

pub proof fn lemma_space_end_bounds(s: Seq<char>, i: int)
    requires
        0 <= i <= s.len(),
    ensures
        i <= space_end(s, i) <= s.len(),
        forall|k: int| i <= k < space_end(s, i) ==> is_space(#[trigger] s[k]),
    decreases s.len() - i,
{
    if i < s.len() && is_space(s[i]) {
        lemma_space_end_bounds(s, i + 1);
    }
}

pub proof fn lemma_word_end_bounds(s: Seq<char>, i: int)
    requires
        0 <= i <= s.len(),
    ensures
        i <= word_end(s, i) <= s.len(),
    decreases s.len() - i,
{
    if i < s.len() && is_word(s[i]) {
        lemma_word_end_bounds(s, i + 1);
    }
}

pub proof fn lemma_find_char_bounds(s: Seq<char>, i: int, c: char)
    requires
        0 <= i <= s.len(),
    ensures
        i <= find_char(s, i, c) <= s.len(),
        find_char(s, i, c) < s.len() ==> s[find_char(s, i, c)] == c,
    decreases s.len() - i,
{
    if i < s.len() && s[i] != c {
        lemma_find_char_bounds(s, i + 1, c);
    }
}

/// Appends the characters of `r` to `out`.
pub fn push_all(out: &mut Vec<char>, r: &[char])
    ensures
        final(out)@ == old(out)@ + r@,
{
    let mut k: usize = 0;
    while k < r.len()
        invariant
            k <= r@.len(),
            out@ == old(out)@ + r@.subrange(0, k as int),
        decreases r@.len() - k,
    {
        out.push(r[k]);
        k = k + 1;
        assert(r@.subrange(0, k as int) == r@.subrange(0, k - 1 as int).push(r@[k - 1]));
    }
    assert(r@.subrange(0, r@.len() as int) == r@);
}

/// Appends the characters of `s` from `a` up to `b` to `out`.
pub fn push_range(out: &mut Vec<char>, s: &[char], a: usize, b: usize)
    requires
        a <= b <= s@.len(),
    ensures
        final(out)@ == old(out)@ + s@.subrange(a as int, b as int),
{
    let mut k = a;
    while k < b
        invariant
            a <= k <= b <= s@.len(),
            out@ == old(out)@ + s@.subrange(a as int, k as int),
        decreases b - k,
    {
        out.push(s[k]);
        k = k + 1;
        assert(s@.subrange(a as int, k as int) == s@.subrange(a as int, k - 1 as int).push(
            s@[k - 1],
        ));
    }
}

pub fn occurs_at_exec(s: &[char], i: usize, p: &[char]) -> (r: bool)
    ensures
        r == occurs_at(s@, i as int, p@),
{
    let n = s.len();
    if p.len() > n || i > n - p.len() {
        return false;
    }
    let mut k: usize = 0;
    while k < p.len()
        invariant
            n == s@.len(),
            i + p@.len() <= s@.len(),
            k <= p@.len(),
            forall|j: int| 0 <= j < k ==> s@[i + j] == p@[j],
        decreases p@.len() - k,
    {
        assert(i + k < s@.len());
        if s[i + k] != p[k] {
            assert(s@.subrange(i as int, i + p@.len())[k as int] != p@[k as int]);
            return false;
        }
        k = k + 1;
    }
    assert(s@.subrange(i as int, i + p@.len()) =~= p@);
    true
}

pub fn word_before_exec(s: &[char], i: usize) -> (r: bool)
    ensures
        r == word_before(s@, i as int),
{
    if i == 0 || i > s.len() {
        false
    } else {
        is_word_char(s[i - 1])
    }
}

pub fn word_at_exec(s: &[char], i: usize) -> (r: bool)
    ensures
        r == word_at(s@, i as int),
{
    if i < s.len() {
        is_word_char(s[i])
    } else {
        false
    }
}

pub fn boundary_exec(s: &[char], i: usize) -> (r: bool)
    ensures
        r == boundary(s@, i as int),
{
    word_before_exec(s, i) != word_at_exec(s, i)
}

pub fn hit_exec(s: &[char], i: usize, p: &[char], left: bool, right: bool) -> (r: bool)
    ensures
        r == hit(s@, i as int, p@, left, right),
{
    if !occurs_at_exec(s, i, p) {
        return false;
    }
    if left && !boundary_exec(s, i) {
        return false;
    }
    let n = s.len();
    assert(i + p@.len() <= n);
    if right && !boundary_exec(s, i + p.len()) {
        return false;
    }
    true
}

/// Replaces, scanning left to right, every occurrence of `p` in `s` by `r`; `left` and
/// `right` ask for a word boundary before and after each occurrence.
pub fn replace_all(s: &[char], p: &[char], r: &[char], left: bool, right: bool) -> (out: Vec<
    char,
>)
    requires
        p@.len() > 0,
    ensures
        out@ == replace_from(s@, p@, r@, left, right, 0),
{
    let mut out: Vec<char> = Vec::new();
    let mut i: usize = 0;
    while i < s.len()
        invariant
            p@.len() > 0,
            i <= s@.len(),
            out@ + replace_from(s@, p@, r@, left, right, i as int) == replace_from(
                s@,
                p@,
                r@,
                left,
                right,
                0,
            ),
        decreases s@.len() - i,
    {
        if hit_exec(s, i, p, left, right) {
            let ghost before = out@;
            push_all(&mut out, r);
            assert(before + replace_from(s@, p@, r@, left, right, i as int) == out@
                + replace_from(s@, p@, r@, left, right, i + p@.len()));
            i = i + p.len();
        } else {
            let ghost before = out@;
            out.push(s[i]);
            assert(before + replace_from(s@, p@, r@, left, right, i as int) == out@
                + replace_from(s@, p@, r@, left, right, i + 1));
            i = i + 1;
        }
    }
    assert(replace_from(s@, p@, r@, left, right, i as int) == Seq::<char>::empty());
    assert(out@ + Seq::<char>::empty() == out@);
    out
}

pub fn space_end_exec(s: &[char], i: usize) -> (r: usize)
    requires
        i <= s@.len(),
    ensures
        r == space_end(s@, i as int),
        i <= r <= s@.len(),
{
    let mut k = i;
    while k < s.len() && is_space_char(s[k])
        invariant
            i <= k <= s@.len(),
            space_end(s@, k as int) == space_end(s@, i as int),
        decreases s@.len() - k,
    {
        k = k + 1;
    }
    k
}

pub fn word_end_exec(s: &[char], i: usize) -> (r: usize)
    requires
        i <= s@.len(),
    ensures
        r == word_end(s@, i as int),
        i <= r <= s@.len(),
{
    let mut k = i;
    while k < s.len() && is_word_char(s[k])
        invariant
            i <= k <= s@.len(),
            word_end(s@, k as int) == word_end(s@, i as int),
        decreases s@.len() - k,
    {
        k = k + 1;
    }
    k
}

pub fn find_char_exec(s: &[char], i: usize, c: char) -> (r: usize)
    requires
        i <= s@.len(),
    ensures
        r == find_char(s@, i as int, c),
        i <= r <= s@.len(),
{
    let mut k = i;
    while k < s.len() && s[k] != c
        invariant
            i <= k <= s@.len(),
            find_char(s@, k as int, c) == find_char(s@, i as int, c),
        decreases s@.len() - k,
    {
        k = k + 1;
    }
    k
}

pub fn trim_exec(s: &[char]) -> (r: Vec<char>)
    ensures
        r@ == trim(s@),
{
    let a = space_end_exec(s, 0);
    let mut b = s.len();
    while b > 0 && is_space_char(s[b - 1])
        invariant
            b <= s@.len(),
            space_start(s@, b as int) == space_start(s@, s@.len() as int),
        decreases b,
    {
        b = b - 1;
    }
    let mut out: Vec<char> = Vec::new();
    if a < b {
        let mut k = a;
        while k < b
            invariant
                a <= k <= b <= s@.len(),
                out@ == s@.subrange(a as int, k as int),
            decreases b - k,
        {
            out.push(s[k]);
            k = k + 1;
            assert(out@ == s@.subrange(a as int, k as int));
        }
    }
    out
}

pub fn seq_eq(a: &[char], b: &[char]) -> (r: bool)
    ensures
        r == (a@ == b@),
{
    if a.len() != b.len() {
        return false;
    }
    let r = occurs_at_exec(a, 0, b);
    assert(a@.subrange(0, b@.len() as int) =~= a@);
    r
}

} // verus!
