//! Normalization of keyword case and validation of a query against a platform.
use vstd::prelude::*;
use vstd::string::StringExecFns;
use crate::config::{lookup, OperatorsView, PlatformConfig, PlatformView};
use crate::error::{to_upper, upper_of, ConversionError, ErrorView};
use crate::text::{
    chars_of, contains, is_space, is_space_char, is_word, is_word_char, occurs_at, occurs_at_exec,
    push_range, replace_all, replace_from, seq_eq, space_end, space_end_exec, string_of, trim,
    trim_exec, word_at, word_before,
};

verus! {

/// The query with the keywords `and`, `or` and `not` (each standing as a whole word)
/// written in upper case.
pub open spec fn normalize_spec(q: Seq<char>) -> Seq<char> {
    let a = replace_from(q, seq!['a', 'n', 'd'], seq!['A', 'N', 'D'], true, true, 0);
    let o = replace_from(a, seq!['o', 'r'], seq!['O', 'R'], true, true, 0);
    replace_from(o, seq!['n', 'o', 't'], seq!['N', 'O', 'T'], true, true, 0)
}

/// A field term's operator `c` stands at `k`, right after a word character.
pub open spec fn term_op_at(s: Seq<char>, k: int, c: char) -> bool {
    0 < k < s.len() && s[k] == c && is_word(s[k - 1])
}

pub open spec fn uses_term_op(s: Seq<char>, c: char) -> bool {
    exists|k: int| term_op_at(s, k, c)
}

pub open spec fn inconsistency_message(platform: Seq<char>, equal: Seq<char>) -> Seq<char> {
    "Inconsistent field operators in query. Found: '=, :'. "@ + upper_of(platform)
        + " platform expects consistent use of '"@ + equal + "'"@
}

/// All field terms use one operator character, and it is the platform's `equal`.
pub open spec fn consistency_check(q: Seq<char>, ops: OperatorsView, platform: Seq<char>) -> Result<
    (),
    ErrorView,
> {
    let eq = uses_term_op(q, '=');
    let colon = uses_term_op(q, ':');
    if eq && colon {
        Err(ErrorView::SyntaxValidationFailed(inconsistency_message(platform, ops.equal)))
    } else if eq && ops.equal != seq!['='] {
        Err(
            ErrorView::UnsupportedOperator {
                platform,
                operator: "field="@,
                suggestion: "field"@ + ops.equal,
            },
        )
    } else if colon && ops.equal != seq![':'] {
        Err(
            ErrorView::UnsupportedOperator {
                platform,
                operator: "field:"@,
                suggestion: "field"@ + ops.equal,
            },
        )
    } else {
        Ok(())
    }
}

/// `NOT` as a word at `i`, followed by whitespace and a word character.
pub open spec fn not_keyword_at(s: Seq<char>, i: int) -> bool {
    &&& occurs_at(s, i, seq!['N', 'O', 'T'])
    &&& !word_before(s, i)
    &&& i + 3 < s.len()
    &&& is_space(s[i + 3])
    &&& word_at(s, space_end(s, i + 3))
}

pub open spec fn has_not_keyword(s: Seq<char>) -> bool {
    exists|i: int| not_keyword_at(s, i)
}

/// The first logical operator of the query that the platform spells otherwise,
/// with the platform's spelling.
pub open spec fn operator_check(q: Seq<char>, ops: OperatorsView) -> Option<(Seq<char>, Seq<char>)> {
    if contains(q, seq!['A', 'N', 'D']) && ops.and != seq!['A', 'N', 'D'] {
        Some((seq!['A', 'N', 'D'], ops.and))
    } else if contains(q, seq!['O', 'R']) && ops.or != seq!['O', 'R'] {
        Some((seq!['O', 'R'], ops.or))
    } else if contains(q, seq!['&', '&']) && ops.and != seq!['&', '&'] {
        Some((seq!['&', '&'], ops.and))
    } else if contains(q, seq!['|', '|']) && ops.or != seq!['|', '|'] {
        Some((seq!['|', '|'], ops.or))
    } else if has_not_keyword(q) && trim(ops.not_equal) != seq!['N', 'O', 'T'] {
        Some((seq!['N', 'O', 'T'], ops.not_equal))
    } else if contains(q, seq!['!', '=']) && ops.not_equal != seq!['!', '='] {
        Some((seq!['!', '='], ops.not_equal))
    } else {
        None
    }
}

/// End of the dotted identifier (`a.b.c`) that starts at `i`.
pub open spec fn run_end(s: Seq<char>, i: int) -> int
    decreases s.len() - i,
{
    if 0 <= i < s.len() && is_word(s[i]) {
        run_end(s, i + 1)
    } else if 0 <= i && i + 1 < s.len() && s[i] == '.' && is_word(s[i + 1]) {
        run_end(s, i + 1)
    } else {
        i
    }
}

/// Length of the field operator (`:`, `=` or `!=`) at `e`, or 0 if there is none.
pub open spec fn field_op_len(s: Seq<char>, e: int) -> int {
    if 0 <= e < s.len() && (s[e] == ':' || s[e] == '=') {
        1
    } else if 0 <= e && e + 1 < s.len() && s[e] == '!' && s[e + 1] == '=' {
        2
    } else {
        0
    }
}

/// The field identifiers before an operator, from `i` on, left to right.
pub open spec fn field_names_from(s: Seq<char>, i: int) -> Seq<Seq<char>>
    decreases s.len() - i,
{
    if i < 0 || i >= s.len() {
        Seq::empty()
    } else {
        let e = run_end(s, i);
        let n = field_op_len(s, e);
        if word_at(s, i) && e > i && n > 0 {
            seq![s.subrange(i, e)] + field_names_from(s, e + n)
        } else {
            field_names_from(s, i + 1)
        }
    }
}

/// `v` with each element kept at its first occurrence only.
pub open spec fn dedup(v: Seq<Seq<char>>) -> Seq<Seq<char>>
    decreases v.len(),
{
    if v.len() == 0 {
        v
    } else {
        let d = dedup(v.drop_last());
        if d.contains(v.last()) {
            d
        } else {
            d.push(v.last())
        }
    }
}

pub proof fn lemma_dedup_distinct(v: Seq<Seq<char>>)
    ensures
        forall|a: int, b: int|
            0 <= a < b < dedup(v).len() ==> #[trigger] dedup(v)[a] != #[trigger] dedup(v)[b],
    decreases v.len(),
{
    if v.len() > 0 {
        lemma_dedup_distinct(v.drop_last());
        let d = dedup(v.drop_last());
        if !d.contains(v.last()) {
            assert forall|a: int, b: int|
                0 <= a < b < dedup(v).len() implies #[trigger] dedup(v)[a] != #[trigger] dedup(
                v,
            )[b] by {
                if b == d.len() {
                    assert(dedup(v)[a] == d[a]);
                } else {
                    assert(dedup(v)[a] == d[a] && dedup(v)[b] == d[b]);
                }
            }
        }
    }
}

pub proof fn lemma_dedup_members(v: Seq<Seq<char>>)
    ensures
        forall|x: Seq<char>| #[trigger] dedup(v).contains(x) <==> v.contains(x),
    decreases v.len(),
{
    if v.len() > 0 {
        let p = v.drop_last();
        lemma_dedup_members(p);
        let d = dedup(p);
        assert forall|x: Seq<char>| #[trigger] dedup(v).contains(x) <==> v.contains(x) by {
            if v.contains(x) {
                let k = choose|k: int| 0 <= k < v.len() && v[k] == x;
                if k < p.len() {
                    assert(p[k] == x);
                    assert(p.contains(x));
                }
                if !d.contains(v.last()) {
                    assert(dedup(v) == d.push(v.last()));
                    if d.contains(x) {
                        let j = choose|j: int| 0 <= j < d.len() && d[j] == x;
                        assert(dedup(v)[j] == x);
                    } else {
                        assert(dedup(v)[d.len() as int] == x);
                    }
                }
            }
            if dedup(v).contains(x) {
                let j = choose|j: int| 0 <= j < dedup(v).len() && dedup(v)[j] == x;
                if d.contains(v.last()) {
                    assert(d.contains(x));
                    let k = choose|k: int| 0 <= k < p.len() && p[k] == x;
                    assert(v[k] == x);
                } else if j < d.len() {
                    assert(d[j] == x);
                    assert(d.contains(x));
                    let k = choose|k: int| 0 <= k < p.len() && p[k] == x;
                    assert(v[k] == x);
                } else {
                    assert(v[v.len() - 1] == x);
                }
            }
        }
    }
}

/// The part of a dotted identifier after its last dot.
pub open spec fn last_segment(f: Seq<char>) -> Seq<char>
    decreases f.len(),
{
    if f.len() == 0 {
        f
    } else if f.last() == '.' {
        Seq::empty()
    } else {
        last_segment(f.drop_last()).push(f.last())
    }
}

/// The field map has `f`, or the last segment of `f`.
pub open spec fn field_supported(fields: Seq<(Seq<char>, Seq<char>)>, f: Seq<char>) -> bool {
    lookup(fields, f) is Some || lookup(fields, last_segment(f)) is Some
}

/// The last segment of the first name from index `i` on that the map does not support.
pub open spec fn first_unsupported(
    fields: Seq<(Seq<char>, Seq<char>)>,
    names: Seq<Seq<char>>,
    i: int,
) -> Option<Seq<char>>
    decreases names.len() - i,
{
    if i < 0 || i >= names.len() {
        None
    } else if !field_supported(fields, names[i]) {
        Some(last_segment(names[i]))
    } else {
        first_unsupported(fields, names, i + 1)
    }
}

/// Every field of `q` is supported by the field map.
pub open spec fn fields_check(
    q: Seq<char>,
    fields: Seq<(Seq<char>, Seq<char>)>,
    platform: Seq<char>,
) -> Result<(), ErrorView> {
    match first_unsupported(fields, dedup(field_names_from(q, 0)), 0) {
        Some(f) => Err(ErrorView::UnsupportedField { platform, field: f }),
        None => Ok(()),
    }
}

/// The outcome of validating `q` for a platform: consistency of field operators,
/// then the logical operators of the normalized query, then the fields.
pub open spec fn validate_spec(q: Seq<char>, cfg: PlatformView, platform: Seq<char>) -> Result<
    (),
    ErrorView,
> {
    match consistency_check(q, cfg.operators, platform) {
        Err(e) => Err(e),
        Ok(_) => match operator_check(normalize_spec(q), cfg.operators) {
            Some(p) => Err(
                ErrorView::UnsupportedOperator { platform, operator: p.0, suggestion: p.1 },
            ),
            None => fields_check(q, cfg.fields, platform),
        },
    }
}

pub open spec fn unit_result_view(r: Result<(), ConversionError>) -> Result<(), ErrorView> {
    match r {
        Ok(_) => Ok(()),
        Err(e) => Err(e@),
    }
}

/// Characters of a string list, as sequences.
pub open spec fn seqs_of(v: Seq<Vec<char>>) -> Seq<Seq<char>> {
    v.map_values(|x: Vec<char>| x@)
}

/// Checks queries against a platform's configuration.
pub struct SyntaxValidator;

impl SyntaxValidator {
    /// Writes the keywords `and`, `or`, `not` in upper case where each stands as a word.
    pub fn normalize_query(query: &str) -> (r: String)
        ensures
            r@ == normalize_spec(query@),
    {
        let q = chars_of(query);
        let a = replace_all(q.as_slice(), &['a', 'n', 'd'], &['A', 'N', 'D'], true, true);
        let o = replace_all(a.as_slice(), &['o', 'r'], &['O', 'R'], true, true);
        let n = replace_all(o.as_slice(), &['n', 'o', 't'], &['N', 'O', 'T'], true, true);
        string_of(n.as_slice())
    }

    /// Validates `query` for the platform `platform_name` with configuration `from_config`.
    pub fn validate_query_syntax(
        query: &str,
        from_config: &PlatformConfig,
        platform_name: &str,
    ) -> (r: Result<(), ConversionError>)
        ensures
            unit_result_view(r) == validate_spec(query@, from_config@, platform_name@),
    {
        let normalized = Self::normalize_query(query);
        let q = chars_of(query);
        let n = chars_of(normalized.as_str());
        match Self::validate_operator_consistency(q.as_slice(), from_config, platform_name) {
            Err(e) => {
                return Err(e);
            },
            Ok(_) => {},
        }
        match Self::validate_operators(n.as_slice(), from_config, platform_name) {
            Err(e) => {
                return Err(e);
            },
            Ok(_) => {},
        }
        Self::validate_fields(q.as_slice(), from_config, platform_name)
    }

    /// Whether some field term uses `=`, and whether some uses `:`.
    fn term_ops_used(q: &[char]) -> (r: (bool, bool))
        ensures
            r.0 == uses_term_op(q@, '='),
            r.1 == uses_term_op(q@, ':'),
    {
        let mut eq = false;
        let mut colon = false;
        let mut k: usize = 1;
        while k < q.len()
            invariant
                1 <= k,
                eq == exists|j: int| 0 < j < k && term_op_at(q@, j, '='),
                colon == exists|j: int| 0 < j < k && term_op_at(q@, j, ':'),
            decreases q@.len() - k,
        {
            if is_word_char(q[k - 1]) {
                if q[k] == '=' {
                    eq = true;
                }
                if q[k] == ':' {
                    colon = true;
                }
            }
            proof {
                lemma_term_op_extend(q@, k as int, '=');
                lemma_term_op_extend(q@, k as int, ':');
            }
            k = k + 1;
        }
        (eq, colon)
    }

    /// All field terms use the same operator character, the platform's `equal`.
    fn validate_operator_consistency(
        q: &[char],
        from_config: &PlatformConfig,
        platform_name: &str,
    ) -> (r: Result<(), ConversionError>)
        ensures
            unit_result_view(r) == consistency_check(q@, from_config@.operators, platform_name@),
    {
        let (eq, colon) = Self::term_ops_used(q);
        let equal = chars_of(from_config.operators.equal.as_str());
        if eq && colon {
            let mut m = String::from_str("Inconsistent field operators in query. Found: '=, :'. ");
            let up = to_upper(platform_name);
            m.append(up.as_str());
            m.append(" platform expects consistent use of '");
            m.append(from_config.operators.equal.as_str());
            m.append("'");
            return Err(ConversionError::SyntaxValidationFailed(m));
        }
        let eq_lit: [char; 1] = ['='];
        let colon_lit: [char; 1] = [':'];
        assert(eq_lit@ =~= seq!['=']);
        assert(colon_lit@ =~= seq![':']);
        if eq && !seq_eq(equal.as_slice(), &eq_lit) {
            let mut s = String::from_str("field");
            s.append(from_config.operators.equal.as_str());
            return Err(
                ConversionError::UnsupportedOperator {
                    platform: String::from_str(platform_name),
                    operator: String::from_str("field="),
                    suggestion: s,
                },
            );
        }
        if colon && !seq_eq(equal.as_slice(), &colon_lit) {
            let mut s = String::from_str("field");
            s.append(from_config.operators.equal.as_str());
            return Err(
                ConversionError::UnsupportedOperator {
                    platform: String::from_str(platform_name),
                    operator: String::from_str("field:"),
                    suggestion: s,
                },
            );
        }
        Ok(())
    }

    fn contains_exec(s: &[char], p: &[char]) -> (r: bool)
        ensures
            r == contains(s@, p@),
    {
        let mut i: usize = 0;
        while i < s.len()
            invariant
                i <= s@.len(),
                forall|j: int| 0 <= j < i ==> !occurs_at(s@, j, p@),
            decreases s@.len() - i,
        {
            if occurs_at_exec(s, i, p) {
                return true;
            }
            i = i + 1;
        }
        occurs_at_exec(s, i, p)
    }

    fn has_not_keyword_exec(s: &[char]) -> (r: bool)
        ensures
            r == has_not_keyword(s@),
    {
        let mut i: usize = 0;
        while i < s.len()
            invariant
                forall|j: int| 0 <= j < i ==> !not_keyword_at(s@, j),
            decreases s@.len() - i,
        {
            if occurs_at_exec(s, i, &['N', 'O', 'T']) && !(i > 0 && is_word_char(s[i - 1])) && i
                + 3 < s.len() && is_space_char(s[i + 3]) {
                let e = space_end_exec(s, i + 3);
                if e < s.len() && is_word_char(s[e]) {
                    assert(not_keyword_at(s@, i as int));
                    return true;
                }
            }
            i = i + 1;
        }
        assert forall|j: int| !not_keyword_at(s@, j) by {
            if 0 <= j && j >= s@.len() {
                assert(!occurs_at(s@, j, seq!['N', 'O', 'T']));
            }
        }
        false
    }

    /// The logical operators of the normalized query `q` are the platform's.
    fn validate_operators(q: &[char], from_config: &PlatformConfig, platform_name: &str) -> (r:
        Result<(), ConversionError>)
        ensures
            unit_result_view(r) == (match operator_check(q@, from_config@.operators) {
                Some(p) => Err(
                    ErrorView::UnsupportedOperator {
                        platform: platform_name@,
                        operator: p.0,
                        suggestion: p.1,
                    },
                ),
                None => Ok(()),
            }),
    {
        let ops = &from_config.operators;
        let and = chars_of(ops.and.as_str());
        let or = chars_of(ops.or.as_str());
        let ne = chars_of(ops.not_equal.as_str());
        let ne_trim = trim_exec(ne.as_slice());
        let lit: &[char];
        let sug: &String;
        if Self::contains_exec(q, &['A', 'N', 'D']) && !seq_eq(and.as_slice(), &['A', 'N', 'D']) {
            lit = &['A', 'N', 'D'];
            sug = &ops.and;
        } else if Self::contains_exec(q, &['O', 'R']) && !seq_eq(or.as_slice(), &['O', 'R']) {
            lit = &['O', 'R'];
            sug = &ops.or;
        } else if Self::contains_exec(q, &['&', '&']) && !seq_eq(and.as_slice(), &['&', '&']) {
            lit = &['&', '&'];
            sug = &ops.and;
        } else if Self::contains_exec(q, &['|', '|']) && !seq_eq(or.as_slice(), &['|', '|']) {
            lit = &['|', '|'];
            sug = &ops.or;
        } else if Self::has_not_keyword_exec(q) && !seq_eq(ne_trim.as_slice(), &['N', 'O', 'T']) {
            lit = &['N', 'O', 'T'];
            sug = &ops.not_equal;
        } else if Self::contains_exec(q, &['!', '=']) && !seq_eq(ne.as_slice(), &['!', '=']) {
            lit = &['!', '='];
            sug = &ops.not_equal;
        } else {
            return Ok(());
        }
        Err(
            ConversionError::UnsupportedOperator {
                platform: String::from_str(platform_name),
                operator: string_of(lit),
                suggestion: sug.clone(),
            },
        )
    }

    fn run_end_exec(s: &[char], i: usize) -> (r: usize)
        requires
            i <= s@.len(),
        ensures
            r == run_end(s@, i as int),
            i <= r <= s@.len(),
    {
        let n = s.len();
        let mut k = i;
        while (k < n && is_word_char(s[k])) || (k < n && k + 1 < n && s[k] == '.'
            && is_word_char(s[k + 1]))
            invariant
                n == s@.len(),
                i <= k <= s@.len(),
                run_end(s@, k as int) == run_end(s@, i as int),
            decreases s@.len() - k,
        {
            k = k + 1;
        }
        k
    }

    fn field_op_len_exec(s: &[char], e: usize) -> (r: usize)
        ensures
            r == field_op_len(s@, e as int),
    {
        if e < s.len() && (s[e] == ':' || s[e] == '=') {
            1
        } else if e < s.len() && e + 1 < s.len() && s[e] == '!' && s[e + 1] == '=' {
            2
        } else {
            0
        }
    }

    /// The distinct field identifiers written before an operator, in order of
    /// first appearance.
    fn extract_field_names_from_query(q: &[char]) -> (r: Vec<Vec<char>>)
        ensures
            seqs_of(r@) == dedup(field_names_from(q@, 0)),
            forall|a: int, b: int|
                0 <= a < b < r@.len() ==> #[trigger] seqs_of(r@)[a] != #[trigger] seqs_of(r@)[b],
            forall|x: Seq<char>|
                #[trigger] seqs_of(r@).contains(x) <==> field_names_from(q@, 0).contains(x),
    {
        let all = Self::field_occurrences(q);
        let r = Self::dedup_names(&all);
        proof {
            lemma_dedup_distinct(field_names_from(q@, 0));
            lemma_dedup_members(field_names_from(q@, 0));
        }
        r
    }

    /// Whether `x` is among the names of `r`.
    fn holds_name(r: &Vec<Vec<char>>, x: &[char]) -> (b: bool)
        ensures
            b == seqs_of(r@).contains(x@),
    {
        let mut j: usize = 0;
        while j < r.len()
            invariant
                j <= r@.len(),
                forall|k: int| 0 <= k < j ==> r@[k]@ != x@,
            decreases r@.len() - j,
        {
            if seq_eq(r[j].as_slice(), x) {
                assert(seqs_of(r@)[j as int] == x@);
                return true;
            }
            j = j + 1;
        }
        assert forall|k: int| 0 <= k < seqs_of(r@).len() implies seqs_of(r@)[k] != x@ by {
            assert(seqs_of(r@)[k] == r@[k]@);
        }
        false
    }

    /// The names of `v` with later repeats left out.
    fn dedup_names(v: &Vec<Vec<char>>) -> (r: Vec<Vec<char>>)
        ensures
            seqs_of(r@) == dedup(seqs_of(v@)),
    {
        let ghost sv = seqs_of(v@);
        let mut r: Vec<Vec<char>> = Vec::new();
        let mut i: usize = 0;
        while i < v.len()
            invariant
                i <= v@.len(),
                sv == seqs_of(v@),
                seqs_of(r@) == dedup(sv.subrange(0, i as int)),
            decreases v@.len() - i,
        {
            let x = &v[i];
            assert(sv.subrange(0, i + 1).drop_last() == sv.subrange(0, i as int));
            assert(sv.subrange(0, i + 1).last() == x@);
            if !Self::holds_name(&r, x.as_slice()) {
                let mut c: Vec<char> = Vec::new();
                push_range(&mut c, x.as_slice(), 0, x.len());
                assert(c@ =~= x@);
                let ghost before = r@;
                r.push(c);
                assert(seqs_of(r@) =~= seqs_of(before).push(x@));
            }
            i = i + 1;
        }
        assert(sv.subrange(0, i as int) =~= sv);
        r
    }

    /// The field identifiers written before an operator, in order of appearance.
    fn field_occurrences(q: &[char]) -> (r: Vec<Vec<char>>)
        ensures
            seqs_of(r@) == field_names_from(q@, 0),
    {
        let mut r: Vec<Vec<char>> = Vec::new();
        let ghost mut g: Seq<Seq<char>> = Seq::empty();
        let mut i: usize = 0;
        while i < q.len()
            invariant
                i <= q@.len(),
                r@.len() == g.len(),
                forall|k: int| 0 <= k < g.len() ==> (#[trigger] r@[k])@ == g[k],
                g + field_names_from(q@, i as int) == field_names_from(q@, 0),
            decreases q@.len() - i,
        {
            let e = Self::run_end_exec(q, i);
            let n = Self::field_op_len_exec(q, e);
            if is_word_char(q[i]) && e > i && n > 0 {
                let mut f: Vec<char> = Vec::new();
                let mut k = i;
                while k < e
                    invariant
                        i <= k <= e <= q@.len(),
                        f@ == q@.subrange(i as int, k as int),
                    decreases e - k,
                {
                    f.push(q[k]);
                    k = k + 1;
                    assert(f@ == q@.subrange(i as int, k as int));
                }
                proof {
                    assert(g.push(f@) + field_names_from(q@, e + n) == g + field_names_from(
                        q@,
                        i as int,
                    ));
                    g = g.push(f@);
                }
                r.push(f);
                i = e + n;
            } else {
                i = i + 1;
            }
        }
        assert(g + field_names_from(q@, i as int) == g);
        assert(seqs_of(r@) =~= g);
        r
    }

    /// The last segment of a dotted identifier.
    fn last_segment_exec(f: &[char]) -> (r: Vec<char>)
        ensures
            r@ == last_segment(f@),
    {
        let mut start = f.len();
        while start > 0 && f[start - 1] != '.'
            invariant
                start <= f@.len(),
                forall|k: int| start <= k < f@.len() ==> f@[k] != '.',
            decreases start,
        {
            start = start - 1;
        }
        proof {
            lemma_last_segment(f@, start as int);
        }
        let mut r: Vec<char> = Vec::new();
        let mut k = start;
        while k < f.len()
            invariant
                start <= k <= f@.len(),
                r@ == f@.subrange(start as int, k as int),
            decreases f@.len() - k,
        {
            r.push(f[k]);
            k = k + 1;
            assert(r@ == f@.subrange(start as int, k as int));
        }
        r
    }

    /// Every field of the query is in the platform's field map, whole or by its last segment.
    fn validate_fields(q: &[char], from_config: &PlatformConfig, platform_name: &str) -> (r: Result<
        (),
        ConversionError,
    >)
        ensures
            unit_result_view(r) == fields_check(q@, from_config@.fields, platform_name@),
    {
        let names = Self::extract_field_names_from_query(q);
        let ghost ns = dedup(field_names_from(q@, 0));
        let mut i: usize = 0;
        while i < names.len()
            invariant
                i <= names@.len(),
                seqs_of(names@) == ns,
                ns == dedup(field_names_from(q@, 0)),
                first_unsupported(from_config@.fields, ns, i as int) == first_unsupported(
                    from_config@.fields,
                    ns,
                    0,
                ),
            decreases names@.len() - i,
        {
            assert(names@[i as int]@ == ns[i as int]);
            let name = &names[i];
            let base = Self::last_segment_exec(name.as_slice());
            let whole = from_config.field_prefix(name.as_slice());
            let last = from_config.field_prefix(base.as_slice());
            if matches!(whole, None) && matches!(last, None) {
                let field = string_of(base.as_slice());
                let platform = String::from_str(platform_name);
                return Err(ConversionError::UnsupportedField { platform, field });
            }
            i = i + 1;
        }
        Ok(())
    }
}

proof fn lemma_term_op_extend(q: Seq<char>, k: int, c: char)
    requires
        1 <= k,
    ensures
        (exists|j: int| 0 < j < k + 1 && term_op_at(q, j, c)) == ((exists|j: int|
            0 < j < k && term_op_at(q, j, c)) || term_op_at(q, k, c)),
{
    if exists|j: int| 0 < j < k + 1 && term_op_at(q, j, c) {
        let w = choose|j: int| 0 < j < k + 1 && term_op_at(q, j, c);
        if w < k {
            assert(0 < w < k && term_op_at(q, w, c));
        }
    }
    if exists|j: int| 0 < j < k && term_op_at(q, j, c) {
        let w = choose|j: int| 0 < j < k && term_op_at(q, j, c);
        assert(0 < w < k + 1 && term_op_at(q, w, c));
    }
    if term_op_at(q, k, c) {
        assert(0 < k < k + 1 && term_op_at(q, k, c));
    }
}

/// The last segment starts right after the last dot.
proof fn lemma_last_segment(f: Seq<char>, start: int)
    requires
        0 <= start <= f.len(),
        start == 0 || f[start - 1] == '.',
        forall|k: int| start <= k < f.len() ==> f[k] != '.',
    ensures
        last_segment(f) == f.subrange(start, f.len() as int),
    decreases f.len(),
{
    if f.len() == 0 {
    } else if start == f.len() {
    } else {
        lemma_last_segment(f.drop_last(), start);
        assert(f.subrange(start, f.len() as int) == f.drop_last().subrange(
            start,
            f.len() - 1,
        ).push(f.last()));
    }
}

} // verus!
