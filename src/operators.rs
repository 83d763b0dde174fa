//! Rewriting of not-equal terms and of the other logical operators.
use vstd::prelude::*;
use crate::config::{OperatorsView, PlatformConfig};
use crate::text::{
    chars_of, find_char, find_char_exec, is_space, is_space_char, is_word_char, occurs_at,
    occurs_at_exec, push_all, push_range, replace_all, replace_literal, seq_eq, space_end,
    space_end_exec, string_of, trim, trim_exec, word_at, word_end, word_end_exec,
};

verus! {

pub open spec fn not_word() -> Seq<char> {
    seq!['N', 'O', 'T']
}

pub open spec fn bang_eq() -> Seq<char> {
    seq!['!', '=']
}

/// A term `field!="value"` starts at `i`.
pub open spec fn bang_at(s: Seq<char>, i: int) -> bool {
    let e = word_end(s, i);
    let c = find_char(s, e + 3, '"');
    &&& word_at(s, i)
    &&& e > i
    &&& e + 2 < s.len()
    &&& s[e] == '!' && s[e + 1] == '=' && s[e + 2] == '"'
    &&& e + 3 <= c < s.len()
}

/// A not-equal term for a platform spelling not-equal `to_ne`; a spelling that is
/// `NOT` once trimmed gives the keyword `NOT`, a space and the term.
pub open spec fn bang_replacement(field: Seq<char>, value: Seq<char>, to_ne: Seq<char>) -> Seq<
    char,
> {
    if trim(to_ne) == not_word() {
        seq!['N', 'O', 'T', ' '] + field + seq![':', '"'] + value + seq!['"']
    } else {
        field + to_ne + seq!['"'] + value + seq!['"']
    }
}

/// `s` from `i` on with each `field!="value"` term rewritten for `to_ne`.
pub open spec fn rewrite_bang_from(s: Seq<char>, to_ne: Seq<char>, i: int) -> Seq<char>
    decreases s.len() - i,
{
    if i < 0 || i >= s.len() {
        Seq::empty()
    } else if bang_at(s, i) {
        let e = word_end(s, i);
        let c = find_char(s, e + 3, '"');
        bang_replacement(s.subrange(i, e), s.subrange(e + 3, c), to_ne) + rewrite_bang_from(
            s,
            to_ne,
            c + 1,
        )
    } else {
        seq![s[i]] + rewrite_bang_from(s, to_ne, i + 1)
    }
}

/// A term `<ne> field<op>"value"` starts at `i`: the keyword `ne`, whitespace, then the term.
pub open spec fn not_at(s: Seq<char>, i: int, ne: Seq<char>, op: char) -> bool {
    let a = i + ne.len();
    let f = space_end(s, a);
    let e = word_end(s, f);
    let c = find_char(s, e + 2, '"');
    &&& occurs_at(s, i, ne)
    &&& a < s.len() && is_space(s[a])
    &&& f > a && word_at(s, f)
    &&& e > f
    &&& e + 1 < s.len() && s[e] == op && s[e + 1] == '"'
    &&& e + 2 <= c < s.len()
}

/// A `NOT`-style term, written with `op`, rewritten for `to_ne`.
pub open spec fn not_replacement(
    field: Seq<char>,
    value: Seq<char>,
    op: char,
    to_ne: Seq<char>,
) -> Seq<char> {
    if to_ne == bang_eq() {
        field + seq!['!', '=', '"'] + value + seq!['"']
    } else if op == '=' && trim(to_ne) == not_word() {
        seq!['N', 'O', 'T', ' '] + field + seq![':', '"'] + value + seq!['"']
    } else {
        field + to_ne + seq!['"'] + value + seq!['"']
    }
}

/// `s` from `i` on with each `<ne> field<op>"value"` term rewritten for `to_ne`.
pub open spec fn rewrite_not_from(s: Seq<char>, ne: Seq<char>, op: char, to_ne: Seq<char>, i: int) -> Seq<
    char,
>
    decreases s.len() - i,
{
    if i < 0 || i >= s.len() {
        Seq::empty()
    } else if not_at(s, i, ne, op) {
        let f = space_end(s, i + ne.len());
        let e = word_end(s, f);
        let c = find_char(s, e + 2, '"');
        not_replacement(s.subrange(f, e), s.subrange(e + 2, c), op, to_ne) + rewrite_not_from(
            s,
            ne,
            op,
            to_ne,
            c + 1,
        )
    } else {
        seq![s[i]] + rewrite_not_from(s, ne, op, to_ne, i + 1)
    }
}

/// Not-equal terms of the source platform written as the target platform writes them.
pub open spec fn not_equal_spec(q: Seq<char>, from: OperatorsView, to: OperatorsView) -> Seq<char> {
    if from.not_equal == to.not_equal {
        q
    } else if from.not_equal == bang_eq() {
        rewrite_bang_from(q, to.not_equal, 0)
    } else if trim(from.not_equal) == not_word() {
        let r = rewrite_not_from(q, not_word(), '=', to.not_equal, 0);
        rewrite_not_from(r, not_word(), ':', to.not_equal, 0)
    } else {
        q
    }
}

/// `q` with every occurrence of `from` replaced by `to`, where the two differ.
pub open spec fn swap_spelling(q: Seq<char>, from: Seq<char>, to: Seq<char>) -> Seq<char> {
    if from != to {
        replace_literal(q, from, to)
    } else {
        q
    }
}

/// The equal, and, or and parenthesis spellings replaced, in that order.
pub open spec fn other_ops_spec(q: Seq<char>, from: OperatorsView, to: OperatorsView) -> Seq<char> {
    let q1 = swap_spelling(q, from.equal, to.equal);
    let q2 = swap_spelling(q1, from.and, to.and);
    let q3 = swap_spelling(q2, from.or, to.or);
    let q4 = swap_spelling(q3, from.left_paren, to.left_paren);
    swap_spelling(q4, from.right_paren, to.right_paren)
}

fn rewrite_bang(s: &[char], to_ne: &[char]) -> (out: Vec<char>)
    ensures
        out@ == rewrite_bang_from(s@, to_ne@, 0),
{
    let to_trim = trim_exec(to_ne);
    let to_not = seq_eq(to_trim.as_slice(), &['N', 'O', 'T']);
    let mut out: Vec<char> = Vec::new();
    let mut i: usize = 0;
    while i < s.len()
        invariant
            i <= s@.len(),
            to_not == (trim(to_ne@) == not_word()),
            out@ + rewrite_bang_from(s@, to_ne@, i as int) == rewrite_bang_from(s@, to_ne@, 0),
        decreases s@.len() - i,
    {
        let e = word_end_exec(s, i);
        let mut matched = false;
        let mut c: usize = 0;
        if is_word_char(s[i]) && e > i && e < s.len() && s.len() - e > 2 && s[e] == '!' && s[e + 1] == '='
            && s[e + 2] == '"' {
            c = find_char_exec(s, e + 3, '"');
            matched = c < s.len();
        }
        let ghost before = out@;
        if matched {
            assert(bang_at(s@, i as int));
            if to_not {
                push_all(&mut out, &['N', 'O', 'T', ' ']);
                push_range(&mut out, s, i, e);
                push_all(&mut out, &[':', '"']);
                push_range(&mut out, s, e + 3, c);
                push_all(&mut out, &['"']);
            } else {
                push_range(&mut out, s, i, e);
                push_all(&mut out, to_ne);
                push_all(&mut out, &['"']);
                push_range(&mut out, s, e + 3, c);
                push_all(&mut out, &['"']);
            }
            assert(out@ == before + bang_replacement(
                s@.subrange(i as int, e as int),
                s@.subrange(e + 3, c as int),
                to_ne@,
            ));
            assert(before + rewrite_bang_from(s@, to_ne@, i as int) == out@ + rewrite_bang_from(
                s@,
                to_ne@,
                c + 1,
            ));
            i = c + 1;
        } else {
            assert(!bang_at(s@, i as int));
            out.push(s[i]);
            assert(before + rewrite_bang_from(s@, to_ne@, i as int) == out@ + rewrite_bang_from(
                s@,
                to_ne@,
                i + 1,
            ));
            i = i + 1;
        }
    }
    assert(out@ + rewrite_bang_from(s@, to_ne@, i as int) == out@);
    out
}

fn rewrite_not(s: &[char], ne: &[char], op: char, to_ne: &[char]) -> (out: Vec<char>)
    ensures
        out@ == rewrite_not_from(s@, ne@, op, to_ne@, 0),
{
    let to_trim = trim_exec(to_ne);
    let to_not = seq_eq(to_trim.as_slice(), &['N', 'O', 'T']);
    let to_bang = seq_eq(to_ne, &['!', '=']);
    let mut out: Vec<char> = Vec::new();
    let mut i: usize = 0;
    while i < s.len()
        invariant
            i <= s@.len(),
            to_not == (trim(to_ne@) == not_word()),
            to_bang == (to_ne@ == bang_eq()),
            out@ + rewrite_not_from(s@, ne@, op, to_ne@, i as int) == rewrite_not_from(
                s@,
                ne@,
                op,
                to_ne@,
                0,
            ),
        decreases s@.len() - i,
    {
        let mut matched = false;
        let mut f: usize = 0;
        let mut e: usize = 0;
        let mut c: usize = 0;
        if occurs_at_exec(s, i, ne) {
            let a = i + ne.len();
            if a < s.len() && is_space_char(s[a]) {
                f = space_end_exec(s, a);
                if f > a && f < s.len() && is_word_char(s[f]) {
                    e = word_end_exec(s, f);
                    if e > f && e < s.len() && s.len() - e > 1 && s[e] == op && s[e + 1] == '"' {
                        c = find_char_exec(s, e + 2, '"');
                        matched = c < s.len();
                    }
                }
            }
        }
        let ghost before = out@;
        if matched {
            assert(not_at(s@, i as int, ne@, op));
            if to_bang {
                push_range(&mut out, s, f, e);
                push_all(&mut out, &['!', '=', '"']);
                push_range(&mut out, s, e + 2, c);
                push_all(&mut out, &['"']);
            } else if op == '=' && to_not {
                push_all(&mut out, &['N', 'O', 'T', ' ']);
                push_range(&mut out, s, f, e);
                push_all(&mut out, &[':', '"']);
                push_range(&mut out, s, e + 2, c);
                push_all(&mut out, &['"']);
            } else {
                push_range(&mut out, s, f, e);
                push_all(&mut out, to_ne);
                push_all(&mut out, &['"']);
                push_range(&mut out, s, e + 2, c);
                push_all(&mut out, &['"']);
            }
            assert(out@ == before + not_replacement(
                s@.subrange(f as int, e as int),
                s@.subrange(e + 2, c as int),
                op,
                to_ne@,
            ));
            assert(before + rewrite_not_from(s@, ne@, op, to_ne@, i as int) == out@
                + rewrite_not_from(s@, ne@, op, to_ne@, c + 1));
            i = c + 1;
        } else {
            assert(!not_at(s@, i as int, ne@, op));
            out.push(s[i]);
            assert(before + rewrite_not_from(s@, ne@, op, to_ne@, i as int) == out@
                + rewrite_not_from(s@, ne@, op, to_ne@, i + 1));
            i = i + 1;
        }
    }
    assert(out@ + rewrite_not_from(s@, ne@, op, to_ne@, i as int) == out@);
    out
}

/// Rewrites terms between spellings of the logical operators.
pub struct OperatorConverter;

impl OperatorConverter {
    /// Rewrites the not-equal terms of `query` from the source platform's shape
    /// to the target platform's.
    pub fn convert_not_equal_operator(
        query: &str,
        from_config: &PlatformConfig,
        to_config: &PlatformConfig,
    ) -> (r: String)
        ensures
            r@ == not_equal_spec(query@, from_config@.operators, to_config@.operators),
    {
        let q = chars_of(query);
        let from_ne = chars_of(from_config.operators.not_equal.as_str());
        let to_ne = chars_of(to_config.operators.not_equal.as_str());
        if seq_eq(from_ne.as_slice(), to_ne.as_slice()) {
            return string_of(q.as_slice());
        }
        if seq_eq(from_ne.as_slice(), &['!', '=']) {
            let out = rewrite_bang(q.as_slice(), to_ne.as_slice());
            return string_of(out.as_slice());
        }
        let from_trim = trim_exec(from_ne.as_slice());
        if seq_eq(from_trim.as_slice(), &['N', 'O', 'T']) {
            let r1 = rewrite_not(q.as_slice(), &['N', 'O', 'T'], '=', to_ne.as_slice());
            let r2 = rewrite_not(r1.as_slice(), &['N', 'O', 'T'], ':', to_ne.as_slice());
            return string_of(r2.as_slice());
        }
        string_of(q.as_slice())
    }

    /// Replaces the equal, and, or and parenthesis spellings of the source platform
    /// by the target's, each where the two differ.
    pub fn convert_other_operators(
        query: &str,
        from_config: &PlatformConfig,
        to_config: &PlatformConfig,
    ) -> (r: String)
        requires
            from_config.wf(),
        ensures
            r@ == other_ops_spec(query@, from_config@.operators, to_config@.operators),
    {
        let f = &from_config.operators;
        let t = &to_config.operators;
        let q0 = chars_of(query);
        let q1 = swap(q0, &f.equal, &t.equal);
        let q2 = swap(q1, &f.and, &t.and);
        let q3 = swap(q2, &f.or, &t.or);
        let q4 = swap(q3, &f.left_paren, &t.left_paren);
        let q5 = swap(q4, &f.right_paren, &t.right_paren);
        string_of(q5.as_slice())
    }
}

/// Replaces `from` by `to` in `q` where the two differ.
fn swap(q: Vec<char>, from: &String, to: &String) -> (r: Vec<char>)
    requires
        from@.len() > 0,
    ensures
        r@ == swap_spelling(q@, from@, to@),
{
    let a = chars_of(from.as_str());
    let b = chars_of(to.as_str());
    if seq_eq(a.as_slice(), b.as_slice()) {
        q
    } else {
        replace_all(q.as_slice(), a.as_slice(), b.as_slice(), false, false)
    }
}

} // verus!
