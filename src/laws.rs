//! Properties of normalization, validation and conversion, proved over their specifications.
use vstd::prelude::*;
use crate::config::{ConfigManager, PlatformView};
use crate::error::ErrorView;
use crate::config::{lookup, lookup_from, unique_keys};
use crate::fields::{fields_from_len, fields_pass, fields_spec};
use crate::operators::{not_at, not_equal_spec, not_word, rewrite_not_from, swap_spelling};
use crate::config::OperatorsView;
use crate::query::{convert_result, convert_spec};
use crate::text::{
    find_char, hit, is_space, is_word, replace_from, space_end, trim, word_at, word_before, word_end,
};
use crate::validator::{
    dedup, field_names_from, fields_check, first_unsupported, inconsistency_message, last_segment,
    lemma_dedup_members, normalize_spec, uses_term_op, validate_spec,
};

verus! {

pub open spec fn is_lower(c: char) -> bool {
    97 <= (c as u32) <= 122
}

pub open spec fn is_upper(c: char) -> bool {
    65 <= (c as u32) <= 90
}

pub open spec fn all_lower(w: Seq<char>) -> bool {
    forall|k: int| 0 <= k < w.len() ==> is_lower(#[trigger] w[k])
}

pub open spec fn all_upper(w: Seq<char>) -> bool {
    forall|k: int| 0 <= k < w.len() ==> is_upper(#[trigger] w[k])
}

/// `s` holds `w` as a whole word somewhere.
pub open spec fn has_word(s: Seq<char>, w: Seq<char>) -> bool {
    exists|p: int| hit(s, p, w, true, true)
}

/// A keyword pass: a lower-case word replaced by an upper-case word of its length.
pub open spec fn keyword_pair(w: Seq<char>, u: Seq<char>) -> bool {
    &&& w.len() == u.len()
    &&& w.len() >= 1
    &&& all_lower(w)
    &&& all_upper(u)
}

/// Shape of a keyword pass from `i` on: same length, each character kept or
/// an upper-case letter in place of a lower-case one, and every whole-word
/// occurrence of `w` starting with an upper-case letter.
proof fn lemma_pass_shape(s: Seq<char>, w: Seq<char>, u: Seq<char>, i: int)
    requires
        keyword_pair(w, u),
        0 <= i <= s.len(),
    ensures
        replace_from(s, w, u, true, true, i).len() == s.len() - i,
        forall|j: int|
            0 <= j < s.len() - i ==> (#[trigger] replace_from(s, w, u, true, true, i)[j] == s[i + j])
                || (is_upper(replace_from(s, w, u, true, true, i)[j]) && is_lower(s[i + j])),
        forall|p: int|
            i <= p < s.len() && #[trigger] hit(s, p, w, true, true) ==> is_upper(
                replace_from(s, w, u, true, true, i)[p - i],
            ),
    decreases s.len() - i,
{
    if i < s.len() {
        let o = replace_from(s, w, u, true, true, i);
        if hit(s, i, w, true, true) {
            let m = w.len() as int;
            lemma_pass_shape(s, w, u, i + m);
            let rest = replace_from(s, w, u, true, true, i + m);
            assert(o == u + rest);
            assert(s.subrange(i, i + m) == w);
            assert forall|j: int| 0 <= j < s.len() - i implies (#[trigger] o[j] == s[i + j]) || (
            is_upper(o[j]) && is_lower(s[i + j])) by {
                if j < m {
                    assert(o[j] == u[j]);
                    assert(s[i + j] == s.subrange(i, i + m)[j]);
                    assert(is_upper(u[j]));
                    assert(is_lower(w[j]));
                } else {
                    assert(o[j] == rest[j - m]);
                    assert(s[i + j] == s[(i + m) + (j - m)]);
                }
            }
            assert forall|p: int| i <= p < s.len() && #[trigger] hit(s, p, w, true, true) implies is_upper(
                o[p - i],
            ) by {
                if p < i + m {
                    assert(o[p - i] == u[p - i]);
                } else {
                    assert(o[p - i] == rest[p - (i + m)]);
                }
            }
        } else {
            lemma_pass_shape(s, w, u, i + 1);
            let rest = replace_from(s, w, u, true, true, i + 1);
            assert(o == seq![s[i]] + rest);
            assert forall|j: int| 0 <= j < s.len() - i implies (#[trigger] o[j] == s[i + j]) || (
            is_upper(o[j]) && is_lower(s[i + j])) by {
                if j > 0 {
                    assert(o[j] == rest[j - 1]);
                    assert(s[i + j] == s[(i + 1) + (j - 1)]);
                }
            }
            assert forall|p: int| i <= p < s.len() && #[trigger] hit(s, p, w, true, true) implies is_upper(
                o[p - i],
            ) by {
                if p > i {
                    assert(o[p - i] == rest[p - (i + 1)]);
                }
            }
        }
    }
}

/// A whole-word occurrence of a lower-case word after a keyword pass was one before it.
proof fn lemma_hit_back(s: Seq<char>, w: Seq<char>, u: Seq<char>, v: Seq<char>, p: int)
    requires
        keyword_pair(w, u),
        all_lower(v),
        v.len() >= 1,
        hit(replace_from(s, w, u, true, true, 0), p, v, true, true),
    ensures
        hit(s, p, v, true, true),
{
    lemma_pass_shape(s, w, u, 0);
    let o = replace_from(s, w, u, true, true, 0);
    let m = v.len() as int;
    assert forall|k: int| 0 <= k < s.len() implies is_word(#[trigger] o[k]) == is_word(s[k]) by {
        assert(o[k] == s[0 + k] || (is_upper(o[k]) && is_lower(s[0 + k])));
    }
    assert forall|k: int| 0 <= k < m implies #[trigger] s[p + k] == v[k] by {
        assert(o.subrange(p, p + m)[k] == v[k]);
        assert(o[p + k] == v[k]);
        assert(is_lower(v[k]));
        assert(o[p + k] == s[0 + (p + k)] || (is_upper(o[p + k]) && is_lower(s[0 + (p + k)])));
    }
    assert(s.subrange(p, p + m) =~= v);
    if p > 0 {
        assert(is_word(o[p - 1]) == is_word(s[p - 1]));
    }
    if p + m < s.len() {
        assert(is_word(o[p + m]) == is_word(s[p + m]));
    }
    assert(word_before(o, p) == word_before(s, p));
    assert(word_at(o, p) == word_at(s, p));
    assert(word_before(o, p + m) == word_before(s, p + m));
    assert(word_at(o, p + m) == word_at(s, p + m));
}

/// After a keyword pass no whole-word occurrence of its word is left, and none of
/// another lower-case word appears that was not there before.
proof fn lemma_pass_clears(s: Seq<char>, w: Seq<char>, u: Seq<char>, v: Seq<char>)
    requires
        keyword_pair(w, u),
        all_lower(v),
        v.len() >= 1,
    ensures
        !has_word(replace_from(s, w, u, true, true, 0), w),
        !has_word(s, v) ==> !has_word(replace_from(s, w, u, true, true, 0), v),
{
    let o = replace_from(s, w, u, true, true, 0);
    lemma_pass_shape(s, w, u, 0);
    assert forall|p: int| !hit(o, p, w, true, true) by {
        if hit(o, p, w, true, true) {
            lemma_hit_back(s, w, u, w, p);
            assert(is_upper(o[p - 0]));
            assert(o.subrange(p, p + w.len())[0] == w[0]);
            assert(is_lower(w[0]));
        }
    }
    assert forall|p: int| !has_word(s, v) implies !hit(o, p, v, true, true) by {
        if hit(o, p, v, true, true) {
            lemma_hit_back(s, w, u, v, p);
        }
    }
}

/// A keyword pass over text without its word changes nothing.
proof fn lemma_pass_noop(s: Seq<char>, w: Seq<char>, u: Seq<char>, i: int)
    requires
        keyword_pair(w, u),
        0 <= i <= s.len(),
        !has_word(s, w),
    ensures
        replace_from(s, w, u, true, true, i) == s.subrange(i, s.len() as int),
    decreases s.len() - i,
{
    if i < s.len() {
        assert(!hit(s, i, w, true, true));
        lemma_pass_noop(s, w, u, i + 1);
        assert(s.subrange(i, s.len() as int) =~= seq![s[i]] + s.subrange(i + 1, s.len() as int));
    } else {
        assert(s.subrange(i, s.len() as int) =~= Seq::<char>::empty());
    }
}

proof fn lemma_keywords()
    ensures
        keyword_pair(seq!['a', 'n', 'd'], seq!['A', 'N', 'D']),
        keyword_pair(seq!['o', 'r'], seq!['O', 'R']),
        keyword_pair(seq!['n', 'o', 't'], seq!['N', 'O', 'T']),
{
    assert(all_lower(seq!['a', 'n', 'd']));
    assert(all_upper(seq!['A', 'N', 'D']));
    assert(all_lower(seq!['o', 'r']));
    assert(all_upper(seq!['O', 'R']));
    assert(all_lower(seq!['n', 'o', 't']));
    assert(all_upper(seq!['N', 'O', 'T']));
}

/// A normalized query holds none of `and`, `or`, `not` as a whole word.
proof fn lemma_normalized_clean(q: Seq<char>)
    ensures
        !has_word(normalize_spec(q), seq!['a', 'n', 'd']),
        !has_word(normalize_spec(q), seq!['o', 'r']),
        !has_word(normalize_spec(q), seq!['n', 'o', 't']),
{
    let and_w = seq!['a', 'n', 'd'];
    let and_u = seq!['A', 'N', 'D'];
    let or_w = seq!['o', 'r'];
    let or_u = seq!['O', 'R'];
    let not_w = seq!['n', 'o', 't'];
    let not_u = seq!['N', 'O', 'T'];
    lemma_keywords();
    let a = replace_from(q, and_w, and_u, true, true, 0);
    let o = replace_from(a, or_w, or_u, true, true, 0);
    let n = replace_from(o, not_w, not_u, true, true, 0);
    assert(n == normalize_spec(q));
    lemma_pass_clears(q, and_w, and_u, and_w);
    lemma_pass_clears(a, or_w, or_u, and_w);
    lemma_pass_clears(o, not_w, not_u, and_w);
    lemma_pass_clears(o, not_w, not_u, or_w);
}

/// Normalization leaves a query without whole-word keywords unchanged.
proof fn lemma_normalize_clean_noop(n: Seq<char>)
    requires
        !has_word(n, seq!['a', 'n', 'd']),
        !has_word(n, seq!['o', 'r']),
        !has_word(n, seq!['n', 'o', 't']),
    ensures
        normalize_spec(n) == n,
{
    lemma_keywords();
    lemma_pass_noop(n, seq!['a', 'n', 'd'], seq!['A', 'N', 'D'], 0);
    assert(n.subrange(0, n.len() as int) =~= n);
    lemma_pass_noop(n, seq!['o', 'r'], seq!['O', 'R'], 0);
    lemma_pass_noop(n, seq!['n', 'o', 't'], seq!['N', 'O', 'T'], 0);
}

/// Normalizing twice gives what normalizing once gives.
pub proof fn lemma_normalize_idempotent(q: Seq<char>)
    ensures
        normalize_spec(normalize_spec(q)) == normalize_spec(q),
{
    lemma_normalized_clean(q);
    lemma_normalize_clean_noop(normalize_spec(q));
}

/// Converting a query to its own platform returns it unchanged.
pub proof fn lemma_convert_identity(m: ConfigManager, q: Seq<char>, p: Seq<char>)
    requires
        m.config_of(p) is Some,
    ensures
        convert_result(m, q, p, p) == Ok::<Seq<char>, ErrorView>(q),
{
}

/// A query whose field terms use both `=` and `:` fails validation on operator
/// consistency, before any other check.
pub proof fn lemma_mixed_operators_rejected(q: Seq<char>, cfg: PlatformView, platform: Seq<char>)
    requires
        uses_term_op(q, '='),
        uses_term_op(q, ':'),
    ensures
        validate_spec(q, cfg, platform) == Err::<(), ErrorView>(
            ErrorView::SyntaxValidationFailed(inconsistency_message(platform, cfg.operators.equal)),
        ),
{
}

/// `s` with every `a` written as `b`.
pub open spec fn swap_char(s: Seq<char>, a: char, b: char) -> Seq<char> {
    s.map_values(|c: char| if c == a { b } else { c })
}

proof fn lemma_replace_one_char(s: Seq<char>, a: char, b: char, i: int)
    requires
        0 <= i <= s.len(),
    ensures
        replace_from(s, seq![a], seq![b], false, false, i) == swap_char(
            s.subrange(i, s.len() as int),
            a,
            b,
        ),
    decreases s.len() - i,
{
    if i < s.len() {
        lemma_replace_one_char(s, a, b, i + 1);
        if s[i] == a {
            assert(s.subrange(i, i + 1) =~= seq![a]);
        } else {
            assert(s.subrange(i, i + 1)[0] != seq![a][0]);
        }
        assert(replace_from(s, seq![a], seq![b], false, false, i) =~= swap_char(
            s.subrange(i, s.len() as int),
            a,
            b,
        ));
    } else {
        assert(swap_char(s.subrange(i, s.len() as int), a, b) =~= Seq::<char>::empty());
    }
}

proof fn lemma_swap_char_back(q: Seq<char>, a: char, b: char)
    requires
        !q.contains(b),
    ensures
        swap_char(swap_char(q, a, b), b, a) == q,
{
    let r = swap_char(q, a, b);
    assert forall|k: int| 0 <= k < q.len() implies #[trigger] swap_char(r, b, a)[k] == q[k] by {
        if q[k] == b {
            assert(q.contains(b));
        }
    }
    assert(swap_char(r, b, a) =~= q);
}

proof fn lemma_swap_spelling_char(q: Seq<char>, a: char, b: char)
    requires
        a != b,
    ensures
        swap_spelling(q, seq![a], seq![b]) == swap_char(q, a, b),
{
    lemma_replace_one_char(q, a, b, 0);
    assert(q.subrange(0, q.len() as int) =~= q);
    assert(seq![a][0] != seq![b][0]);
}

proof fn lemma_lookup_entry(f: Seq<(Seq<char>, Seq<char>)>, i: int, j: int)
    requires
        unique_keys(f),
        0 <= j <= i < f.len(),
    ensures
        lookup_from(f, f[i].0, j) == Some(f[i].1),
    decreases i - j,
{
    if j < i {
        assert(f[j].0 != f[i].0);
        lemma_lookup_entry(f, i, j + 1);
    }
}

proof fn lemma_fields_pass_same(q: Seq<char>, f: Seq<(Seq<char>, Seq<char>)>, len: int, i: int)
    requires
        unique_keys(f),
        0 <= i <= f.len(),
    ensures
        fields_pass(q, f, f, len, i) == q,
    decreases i,
{
    if i > 0 {
        lemma_fields_pass_same(q, f, len, i - 1);
        lemma_lookup_entry(f, i - 1, 0);
        assert(lookup(f, f[i - 1].0) == Some(f[i - 1].1));
    }
}

proof fn lemma_fields_same(q: Seq<char>, f: Seq<(Seq<char>, Seq<char>)>, len: int)
    requires
        unique_keys(f),
    ensures
        fields_from_len(q, f, f, len) == q,
    decreases len + 1,
{
    if len >= 0 {
        lemma_fields_pass_same(q, f, len, f.len() as int);
        lemma_fields_same(q, f, len - 1);
    }
}

/// A keyword pass adds no character other than an upper-case letter.
proof fn lemma_pass_keeps_absent(s: Seq<char>, w: Seq<char>, u: Seq<char>, c: char)
    requires
        keyword_pair(w, u),
        !is_upper(c),
        !s.contains(c),
    ensures
        !replace_from(s, w, u, true, true, 0).contains(c),
{
    lemma_pass_shape(s, w, u, 0);
    let o = replace_from(s, w, u, true, true, 0);
    assert forall|j: int| 0 <= j < o.len() implies #[trigger] o[j] != c by {
        assert(o[j] == s[0 + j] || (is_upper(o[j]) && is_lower(s[0 + j])));
        if o[j] == s[j] {
            assert(s.contains(s[j]));
        }
    }
}

proof fn lemma_normalize_keeps_absent(q: Seq<char>, c: char)
    requires
        !is_upper(c),
        !q.contains(c),
    ensures
        !normalize_spec(q).contains(c),
{
    lemma_keywords();
    let a = replace_from(q, seq!['a', 'n', 'd'], seq!['A', 'N', 'D'], true, true, 0);
    let o = replace_from(a, seq!['o', 'r'], seq!['O', 'R'], true, true, 0);
    lemma_pass_keeps_absent(q, seq!['a', 'n', 'd'], seq!['A', 'N', 'D'], c);
    lemma_pass_keeps_absent(a, seq!['o', 'r'], seq!['O', 'R'], c);
    lemma_pass_keeps_absent(o, seq!['n', 'o', 't'], seq!['N', 'O', 'T'], c);
}

/// Writing one non-word character as another that is no lower-case letter creates
/// no whole-word occurrence of a lower-case word.
proof fn lemma_swap_keeps_clean(s: Seq<char>, a: char, b: char, v: Seq<char>)
    requires
        !is_word(a),
        !is_word(b),
        !is_lower(b),
        all_lower(v),
        v.len() >= 1,
        !has_word(s, v),
    ensures
        !has_word(swap_char(s, a, b), v),
{
    let t = swap_char(s, a, b);
    assert forall|k: int| 0 <= k < s.len() implies is_word(#[trigger] t[k]) == is_word(s[k]) by {}
    assert forall|p: int| !hit(t, p, v, true, true) by {
        if hit(t, p, v, true, true) {
            let m = v.len() as int;
            assert forall|k: int| 0 <= k < m implies #[trigger] s[p + k] == v[k] by {
                assert(t.subrange(p, p + m)[k] == v[k]);
                assert(t[p + k] == v[k]);
                assert(is_lower(v[k]));
            }
            assert(s.subrange(p, p + m) =~= v);
            if p > 0 {
                assert(is_word(t[p - 1]) == is_word(s[p - 1]));
            }
            if p + m < s.len() {
                assert(is_word(t[p + m]) == is_word(s[p + m]));
            }
            assert(word_before(t, p) == word_before(s, p));
            assert(word_at(t, p) == word_at(s, p));
            assert(word_before(t, p + m) == word_before(s, p + m));
            assert(word_at(t, p + m) == word_at(s, p + m));
            assert(hit(s, p, v, true, true));
        }
    }
}

/// Two platforms alike but for the equal spelling, `=` on `a` and `:` on `b`, with
/// one field map whose canonical names are unique.
pub open spec fn differ_in_equal_only(a: PlatformView, b: PlatformView) -> bool {
    &&& a.operators.equal == seq!['=']
    &&& b.operators.equal == seq![':']
    &&& a.operators.and == b.operators.and
    &&& a.operators.or == b.operators.or
    &&& a.operators.not_equal == b.operators.not_equal
    &&& a.operators.left_paren == b.operators.left_paren
    &&& a.operators.right_paren == b.operators.right_paren
    &&& a.fields == b.fields
    &&& unique_keys(a.fields)
}

/// Converting from such a platform `a` to `b` and back gives the normalized query
/// again, when `:` does not occur in it: every `=` comes back.
pub proof fn lemma_convert_round_trip(q: Seq<char>, a: PlatformView, b: PlatformView)
    requires
        differ_in_equal_only(a, b),
        !q.contains(':'),
    ensures
        convert_spec(convert_spec(q, a, b), b, a) == normalize_spec(q),
{
    let n = normalize_spec(q);
    lemma_normalize_keeps_absent(q, ':');
    lemma_fields_same(n, a.fields, crate::fields::max_name_len(a.fields));
    assert(fields_spec(n, a, b) == n);
    lemma_swap_spelling_char(n, '=', ':');
    let t = swap_char(n, '=', ':');
    assert(convert_spec(q, a, b) == t);
    lemma_normalized_clean(q);
    lemma_swap_keeps_clean(n, '=', ':', seq!['a', 'n', 'd']);
    lemma_swap_keeps_clean(n, '=', ':', seq!['o', 'r']);
    lemma_swap_keeps_clean(n, '=', ':', seq!['n', 'o', 't']);
    lemma_normalize_clean_noop(t);
    lemma_fields_same(t, b.fields, crate::fields::max_name_len(b.fields));
    assert(fields_spec(t, b, a) == t);
    lemma_swap_spelling_char(t, ':', '=');
    lemma_swap_char_back(n, '=', ':');
}

proof fn lemma_word_end_at(s: Seq<char>, i: int, j: int)
    requires
        0 <= i <= j <= s.len(),
        forall|k: int| i <= k < j ==> is_word(#[trigger] s[k]),
        j == s.len() || !is_word(s[j]),
    ensures
        word_end(s, i) == j,
    decreases j - i,
{
    if i < j {
        lemma_word_end_at(s, i + 1, j);
    }
}

proof fn lemma_find_char_at(s: Seq<char>, i: int, j: int, c: char)
    requires
        0 <= i <= j < s.len(),
        forall|k: int| i <= k < j ==> #[trigger] s[k] != c,
        s[j] == c,
    ensures
        find_char(s, i, c) == j,
    decreases j - i,
{
    if i < j {
        lemma_find_char_at(s, i + 1, j, c);
    }
}

proof fn lemma_rewrite_not_none(s: Seq<char>, ne: Seq<char>, op: char, to: Seq<char>, i: int)
    requires
        0 <= i <= s.len(),
        forall|j: int| i <= j < s.len() ==> !#[trigger] not_at(s, j, ne, op),
    ensures
        rewrite_not_from(s, ne, op, to, i) == s.subrange(i, s.len() as int),
    decreases s.len() - i,
{
    if i < s.len() {
        lemma_rewrite_not_none(s, ne, op, to, i + 1);
        assert(s.subrange(i, s.len() as int) =~= seq![s[i]] + s.subrange(i + 1, s.len() as int));
    } else {
        assert(s.subrange(i, s.len() as int) =~= Seq::<char>::empty());
    }
}

/// From a platform whose not-equal spelling is `NOT` (trimmed) to one that writes
/// `!=`, the term `NOT w="v"` becomes `w!="v"`, for a field `w` of word characters
/// (the first of them no whitespace) and a value `v` without `"`.
pub proof fn lemma_not_to_bang(w: Seq<char>, v: Seq<char>, from: OperatorsView, to: OperatorsView)
    requires
        trim(from.not_equal) == not_word(),
        to.not_equal == seq!['!', '='],
        w.len() >= 1,
        forall|k: int| 0 <= k < w.len() ==> is_word(#[trigger] w[k]),
        !is_space(w[0]),
        forall|k: int| 0 <= k < v.len() ==> #[trigger] v[k] != '"',
    ensures
        not_equal_spec(not_word() + seq![' '] + w + seq!['=', '"'] + v + seq!['"'], from, to)
            == w + seq!['!', '=', '"'] + v + seq!['"'],
{
    let t = not_word() + seq![' '] + w + seq!['=', '"'] + v + seq!['"'];
    let out = w + seq!['!', '=', '"'] + v + seq!['"'];
    let m = w.len() as int;
    let n = v.len() as int;
    assert(t.len() == m + n + 7);
    assert(from.not_equal != to.not_equal) by {
        if from.not_equal == seq!['!', '='] {
            assert(from.not_equal =~= seq!['!', '=']);
        }
    }
    assert(from.not_equal != seq!['!', '=']) by {
        assert(trim(seq!['!', '=']) != not_word()) by {
            let s2 = seq!['!', '='];
            assert(!is_space(s2[0]) && !is_space(s2[1]));
            assert(crate::text::space_end(s2, 0) == 0);
            assert(crate::text::space_start(s2, 2) == 2);
            assert(trim(s2) =~= s2);
        }
    }
    // first pass: the one term at 0
    assert forall|k: int| 4 <= k < 4 + m implies is_word(#[trigger] t[k]) by {
        assert(t[k] == w[k - 4]);
    }
    assert(t[4 + m] == '=');
    lemma_word_end_at(t, 4, 4 + m);
    assert(t[3] == ' ');
    assert(t[4] == w[0]);
    assert(space_end(t, 4) == 4);
    assert(space_end(t, 3) == 4);
    assert forall|k: int| 6 + m <= k < 6 + m + n implies #[trigger] t[k] != '"' by {
        assert(t[k] == v[k - 6 - m]);
    }
    lemma_find_char_at(t, 6 + m, 6 + m + n, '"');
    assert(t.subrange(0, 3) =~= not_word());
    assert(not_at(t, 0, not_word(), '='));
    assert(t.subrange(4, 4 + m) =~= w);
    assert(t.subrange(6 + m, 6 + m + n) =~= v);
    let r = rewrite_not_from(t, not_word(), '=', to.not_equal, 0);
    assert(rewrite_not_from(t, not_word(), '=', to.not_equal, 7 + m + n) == Seq::<char>::empty());
    assert(r =~= out);
    // second pass: nothing left to rewrite
    let len = out.len() as int;
    assert(len == m + n + 4);
    assert forall|k: int| 0 <= k < len && #[trigger] out[k] == '"' implies k == m + 2 || k == len
        - 1 by {
        if k < m {
            assert(out[k] == w[k]);
        } else if m + 3 <= k < m + 3 + n {
            assert(out[k] == v[k - m - 3]);
        }
    }
    assert forall|j: int| 0 <= j < len implies !#[trigger] not_at(out, j, not_word(), ':') by {
        if not_at(out, j, not_word(), ':') {
            let f = space_end(out, j + 3);
            let e = word_end(out, f);
            assert(out[e + 1] == '"');
            if e + 1 == m + 2 {
                assert(out[m + 1] == '=');
            }
        }
    }
    lemma_rewrite_not_none(out, not_word(), ':', to.not_equal, 0);
    assert(out.subrange(0, len) =~= out);
}

proof fn lemma_first_unsupported_none(
    fields: Seq<(Seq<char>, Seq<char>)>,
    names: Seq<Seq<char>>,
    i: int,
)
    requires
        0 <= i <= names.len(),
        forall|k: int| 0 <= k < names.len() ==> lookup(fields, last_segment(#[trigger] names[k])) is Some,
    ensures
        first_unsupported(fields, names, i) is None,
    decreases names.len() - i,
{
    if i < names.len() {
        lemma_first_unsupported_none(fields, names, i + 1);
    }
}

/// The field check passes on a query each of whose field identifiers has its last
/// dot-separated segment in the field map, whether or not the whole dotted name is.
pub proof fn lemma_field_fallback(q: Seq<char>, fields: Seq<(Seq<char>, Seq<char>)>, platform: Seq<char>)
    requires
        forall|f: Seq<char>|
            #[trigger] field_names_from(q, 0).contains(f) ==> lookup(fields, last_segment(f)) is Some,
    ensures
        fields_check(q, fields, platform) == Ok::<(), ErrorView>(()),
{
    let names = field_names_from(q, 0);
    let d = dedup(names);
    lemma_dedup_members(names);
    assert forall|k: int| 0 <= k < d.len() implies lookup(fields, last_segment(#[trigger] d[k])) is Some by {
        assert(d.contains(d[k]));
        assert(names.contains(d[k]));
    }
    lemma_first_unsupported_none(fields, d, 0);
}

/// The last segment of `p.b` is `b`, for `b` without a dot.
pub proof fn lemma_last_segment_dotted(p: Seq<char>, b: Seq<char>)
    requires
        forall|k: int| 0 <= k < b.len() ==> #[trigger] b[k] != '.',
    ensures
        last_segment(p + seq!['.'] + b) == b,
    decreases b.len(),
{
    let f = p + seq!['.'] + b;
    if b.len() == 0 {
        assert(f.last() == '.');
    } else {
        lemma_last_segment_dotted(p, b.drop_last());
        assert(f.drop_last() =~= p + seq!['.'] + b.drop_last());
        assert(f.last() == b.last());
        assert(b.drop_last().push(b.last()) =~= b);
    }
}

proof fn lemma_replace_keeps_absent(
    s: Seq<char>,
    p: Seq<char>,
    r: Seq<char>,
    left: bool,
    right: bool,
    i: int,
    c: char,
)
    requires
        0 <= i <= s.len(),
        !s.contains(c),
        !r.contains(c),
    ensures
        !replace_from(s, p, r, left, right, i).contains(c),
    decreases s.len() - i,
{
    let o = replace_from(s, p, r, left, right, i);
    if i < s.len() && p.len() > 0 {
        if hit(s, i, p, left, right) {
            lemma_replace_keeps_absent(s, p, r, left, right, i + p.len(), c);
            let rest = replace_from(s, p, r, left, right, i + p.len());
            assert forall|j: int| 0 <= j < o.len() implies #[trigger] o[j] != c by {
                if j < r.len() {
                    assert(o[j] == r[j]);
                    if r[j] == c {
                        assert(r.contains(c));
                    }
                } else {
                    assert(o[j] == rest[j - r.len()]);
                    if rest[j - r.len()] == c {
                        assert(rest.contains(c));
                    }
                }
            }
        } else {
            lemma_replace_keeps_absent(s, p, r, left, right, i + 1, c);
            let rest = replace_from(s, p, r, left, right, i + 1);
            assert forall|j: int| 0 <= j < o.len() implies #[trigger] o[j] != c by {
                if j == 0 {
                    assert(o[j] == s[i]);
                    if s[i] == c {
                        assert(s.contains(c));
                    }
                } else {
                    assert(o[j] == rest[j - 1]);
                    if rest[j - 1] == c {
                        assert(rest.contains(c));
                    }
                }
            }
        }
    } else if i < s.len() {
        assert forall|j: int| 0 <= j < o.len() implies #[trigger] o[j] != c by {
            assert(o[j] == s[i + j]);
            if s[i + j] == c {
                assert(s.contains(c));
            }
        }
    }
}

proof fn lemma_swap_keeps_absent(q: Seq<char>, from: Seq<char>, to: Seq<char>, c: char)
    requires
        !q.contains(c),
        !to.contains(c),
    ensures
        !swap_spelling(q, from, to).contains(c),
{
    if from != to {
        lemma_replace_keeps_absent(q, from, to, false, false, 0, c);
    }
}

/// Converting a query from a platform `pb`, whose equal spelling is `:`, to a platform
/// `pa`, whose equal spelling is `=` and whose other spellings hold no `:`, leaves no
/// `:` in the result: every field term is written with `=` again. This holds in
/// particular for a query first converted from `pa` to `pb`.
pub proof fn lemma_round_trip_restores_equal(
    m: ConfigManager,
    q: Seq<char>,
    pa: Seq<char>,
    pb: Seq<char>,
)
    requires
        pa != pb,
        m.config_of(pa) is Some,
        m.config_of(pb) is Some,
        m.config_of(pa)->0.operators.equal == seq!['='],
        m.config_of(pb)->0.operators.equal == seq![':'],
        !m.config_of(pa)->0.operators.and.contains(':'),
        !m.config_of(pa)->0.operators.or.contains(':'),
        !m.config_of(pa)->0.operators.left_paren.contains(':'),
        !m.config_of(pa)->0.operators.right_paren.contains(':'),
    ensures
        match convert_result(m, q, pa, pb) {
            Ok(there) => match convert_result(m, there, pb, pa) {
                Ok(back) => !back.contains(':') && !uses_term_op(back, ':'),
                Err(_) => false,
            },
            Err(_) => false,
        },
{
    let a = m.config_of(pa)->0;
    let b = m.config_of(pb)->0;
    let there = convert_spec(q, a, b);
    let x = fields_spec(not_equal_spec(normalize_spec(there), b.operators, a.operators), b, a);
    lemma_swap_spelling_char(x, ':', '=');
    let x1 = swap_char(x, ':', '=');
    assert forall|j: int| 0 <= j < x1.len() implies #[trigger] x1[j] != ':' by {}
    assert(!x1.contains(':'));
    lemma_swap_keeps_absent(x1, b.operators.and, a.operators.and, ':');
    let x2 = swap_spelling(x1, b.operators.and, a.operators.and);
    lemma_swap_keeps_absent(x2, b.operators.or, a.operators.or, ':');
    let x3 = swap_spelling(x2, b.operators.or, a.operators.or);
    lemma_swap_keeps_absent(x3, b.operators.left_paren, a.operators.left_paren, ':');
    let x4 = swap_spelling(x3, b.operators.left_paren, a.operators.left_paren);
    lemma_swap_keeps_absent(x4, b.operators.right_paren, a.operators.right_paren, ':');
    let back = convert_spec(there, b, a);
    assert(!back.contains(':'));
    assert forall|k: int| !crate::validator::term_op_at(back, k, ':') by {
        if crate::validator::term_op_at(back, k, ':') {
            assert(back.contains(back[k]));
        }
    }
}

} // verus!
