//! Rewriting of field prefixes between platforms.
use vstd::prelude::*;
use crate::config::{lookup, PlatformConfig, PlatformView};
use crate::text::{chars_of, replace_all, replace_from, seq_eq, string_of};

verus! {

/// Occurrences of `from` followed by `=` or `:`, each at a word boundary, rewritten
/// to `to` followed by the same character.
pub open spec fn prefix_rewrite(q: Seq<char>, from: Seq<char>, to: Seq<char>) -> Seq<char> {
    let q1 = replace_from(q, from.push('='), to.push('='), true, false, 0);
    replace_from(q1, from.push(':'), to.push(':'), true, false, 0)
}

/// The rewrite for one field of the source map: only where the target has the
/// field under another prefix.
pub open spec fn field_step(
    q: Seq<char>,
    entry: (Seq<char>, Seq<char>),
    to: Seq<(Seq<char>, Seq<char>)>,
) -> Seq<char> {
    match lookup(to, entry.0) {
        Some(t) => if t != entry.1 {
            prefix_rewrite(q, entry.1, t)
        } else {
            q
        },
        None => q,
    }
}

/// The steps of the first `i` source fields whose name has `len` characters, in order.
pub open spec fn fields_pass(
    q: Seq<char>,
    from: Seq<(Seq<char>, Seq<char>)>,
    to: Seq<(Seq<char>, Seq<char>)>,
    len: int,
    i: int,
) -> Seq<char>
    decreases i,
{
    if i <= 0 {
        q
    } else {
        let q1 = fields_pass(q, from, to, len, i - 1);
        if from[i - 1].0.len() == len {
            field_step(q1, from[i - 1], to)
        } else {
            q1
        }
    }
}

/// The passes for name lengths `len`, `len - 1`, ..., 0, longest first.
pub open spec fn fields_from_len(
    q: Seq<char>,
    from: Seq<(Seq<char>, Seq<char>)>,
    to: Seq<(Seq<char>, Seq<char>)>,
    len: int,
) -> Seq<char>
    decreases len + 1,
{
    if len < 0 {
        q
    } else {
        fields_from_len(fields_pass(q, from, to, len, from.len() as int), from, to, len - 1)
    }
}

/// The length of the longest field name.
pub open spec fn max_name_len(f: Seq<(Seq<char>, Seq<char>)>) -> int
    decreases f.len(),
{
    if f.len() == 0 {
        0
    } else {
        let m = max_name_len(f.drop_last());
        if f.last().0.len() > m {
            f.last().0.len() as int
        } else {
            m
        }
    }
}

/// Field prefixes of `from` rewritten to those of `to`: longer names first, and in
/// map order among names of one length.
pub open spec fn fields_spec(q: Seq<char>, from: PlatformView, to: PlatformView) -> Seq<char> {
    fields_from_len(q, from.fields, to.fields, max_name_len(from.fields))
}

/// Rewrites field prefixes between platforms.
pub struct FieldConverter;

impl FieldConverter {
    /// Rewrites the field prefixes of `query` from the source platform's to the target's.
    pub fn convert_fields(query: &str, from_config: &PlatformConfig, to_config: &PlatformConfig) -> (r:
        String)
        ensures
            r@ == fields_spec(query@, from_config@, to_config@),
    {
        let ghost from = from_config@.fields;
        let ghost to = to_config@.fields;
        let n = from_config.fields.len();
        let mut max: usize = 0;
        let mut i: usize = 0;
        while i < n
            invariant
                n == from.len(),
                from == from_config@.fields,
                i <= n,
                max == max_name_len(from.subrange(0, i as int)),
            decreases n - i,
        {
            let name = chars_of(from_config.fields[i].0.as_str());
            assert(from.subrange(0, i + 1).drop_last() == from.subrange(0, i as int));
            if name.len() > max {
                max = name.len();
            }
            i = i + 1;
        }
        assert(from.subrange(0, n as int) == from);
        let mut cur = chars_of(query);
        let mut len = max;
        loop
            invariant_except_break
                fields_from_len(cur@, from, to, len as int) == fields_from_len(
                    query@,
                    from,
                    to,
                    max as int,
                ),
            invariant
                n == from.len(),
                from == from_config@.fields,
                to == to_config@.fields,
                len <= max,
            ensures
                cur@ == fields_from_len(query@, from, to, max as int),
            decreases len,
        {
            let ghost start = cur@;
            let mut i: usize = 0;
            while i < n
                invariant
                    n == from.len(),
                    from == from_config@.fields,
                    to == to_config@.fields,
                    i <= n,
                    cur@ == fields_pass(start, from, to, len as int, i as int),
                decreases n - i,
            {
                let name = chars_of(from_config.fields[i].0.as_str());
                if name.len() == len {
                    cur = Self::field_step_exec(cur, &from_config.fields[i], to_config);
                }
                i = i + 1;
            }
            assert(fields_from_len(start, from, to, len as int) == fields_from_len(
                cur@,
                from,
                to,
                len - 1,
            ));
            if len == 0 {
                break ;
            }
            len = len - 1;
        }
        string_of(cur.as_slice())
    }

    fn field_step_exec(q: Vec<char>, entry: &(String, String), to_config: &PlatformConfig) -> (r: Vec<
        char,
    >)
        ensures
            r@ == field_step(q@, (entry.0@, entry.1@), to_config@.fields),
    {
        let name = chars_of(entry.0.as_str());
        match to_config.field_prefix(name.as_slice()) {
            Some(t) => {
                let from_prefix = chars_of(entry.1.as_str());
                let to_prefix = chars_of(t.as_str());
                if seq_eq(to_prefix.as_slice(), from_prefix.as_slice()) {
                    return q;
                }
                let mut from_eq = from_prefix.clone();
                from_eq.push('=');
                let mut to_eq = to_prefix.clone();
                to_eq.push('=');
                let mut from_colon = from_prefix.clone();
                from_colon.push(':');
                let mut to_colon = to_prefix.clone();
                to_colon.push(':');
                let q1 = replace_all(q.as_slice(), from_eq.as_slice(), to_eq.as_slice(), true, false);
                replace_all(q1.as_slice(), from_colon.as_slice(), to_colon.as_slice(), true, false)
            },
            None => q,
        }
    }
}

} // verus!
