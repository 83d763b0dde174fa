//! Rendering of conversion results as text or JSON.
use vstd::prelude::*;
use vstd::string::StringExecFns;
use crate::error::{to_upper, upper_of};

verus! {

/// How the results are rendered.
#[derive(Clone, Copy, Debug, PartialEq, Eq)]
pub enum OutputFormat {
    /// Plain text.
    Raw,
    /// A JSON object.
    Json,
}

/// What `serde_json::to_string_pretty` writes for the object with members
/// `source_platform`, `original_query` and `converted_queries` (an object from
/// each target platform to its query).
pub uninterp spec fn json_report(
    source: Seq<char>,
    query: Seq<char>,
    conversions: Seq<(Seq<char>, Seq<char>)>,
) -> Seq<char>;

pub open spec fn conversion_views(c: Seq<(String, String)>) -> Seq<(Seq<char>, Seq<char>)> {
    c.map_values(|p: (String, String)| (p.0@, p.1@))
}

/// The block of one target platform in the text rendering.
pub open spec fn raw_entry(platform: Seq<char>, query: Seq<char>) -> Seq<char> {
    "[-] "@ + upper_of(platform) + ":\n"@ + query + "\n\n"@
}

/// The blocks of all target platforms, in order.
pub open spec fn raw_entries(c: Seq<(String, String)>) -> Seq<char>
    decreases c.len(),
{
    if c.len() == 0 {
        Seq::empty()
    } else {
        raw_entries(c.drop_last()) + raw_entry(c.last().0@, c.last().1@)
    }
}

/// The text rendering of a set of conversions.
pub open spec fn raw_output(platform: Seq<char>, query: Seq<char>, c: Seq<(String, String)>) -> Seq<
    char,
> {
    "Source platform: "@ + platform + "\n"@ + "Original query: "@ + query + "\n"@ + "\n"@
        + raw_entries(c)
}

/// Relies on serde_json: a `Value` object of the three members, written by
/// `to_string_pretty`, which does not fail on string keys and values.
#[verifier::external_body]
fn render_json(source: &str, query: &str, conversions: &[(String, String)]) -> (r: String)
    ensures
        r@ == json_report(source@, query@, conversion_views(conversions@)),
{
    let mut converted = serde_json::Map::new();
    for (p, q) in conversions {
        converted.insert(p.clone(), serde_json::Value::String(q.clone()));
    }
    let mut root = serde_json::Map::new();
    root.insert("source_platform".to_string(), serde_json::Value::String(source.to_string()));
    root.insert("original_query".to_string(), serde_json::Value::String(query.to_string()));
    root.insert("converted_queries".to_string(), serde_json::Value::Object(converted));
    serde_json::to_string_pretty(&serde_json::Value::Object(root)).unwrap_or_default()
}

/// Renders conversion results.
pub struct OutputFormatter;

impl OutputFormatter {
    /// The source platform and query, then one block per target platform.
    pub fn generate_raw_output(platform: &str, query: &str, conversions: &[(String, String)]) -> (r:
        String)
        ensures
            r@ == raw_output(platform@, query@, conversions@),
    {
        let mut output = String::from_str("Source platform: ");
        output.append(platform);
        output.append("\n");
        output.append("Original query: ");
        output.append(query);
        output.append("\n");
        output.append("\n");
        let ghost head = output@;
        let mut i: usize = 0;
        while i < conversions.len()
            invariant
                i <= conversions@.len(),
                head == "Source platform: "@ + platform@ + "\n"@ + "Original query: "@ + query@
                    + "\n"@ + "\n"@,
                output@ == head + raw_entries(conversions@.subrange(0, i as int)),
            decreases conversions@.len() - i,
        {
            let (p, q) = &conversions[i];
            let up = to_upper(p.as_str());
            output.append("[-] ");
            output.append(up.as_str());
            output.append(":\n");
            output.append(q.as_str());
            output.append("\n\n");
            assert(conversions@.subrange(0, i + 1).drop_last() == conversions@.subrange(
                0,
                i as int,
            ));
            i = i + 1;
        }
        assert(conversions@.subrange(0, i as int) == conversions@);
        output
    }

    /// The JSON rendering: an object with the source platform, the given query
    /// and the converted query of each target platform.
    pub fn generate_json_output(
        source_platform: &str,
        query: &str,
        conversions: &[(String, String)],
    ) -> (r: String)
        ensures
            r@ == json_report(source_platform@, query@, conversion_views(conversions@)),
    {
        render_json(source_platform, query, conversions)
    }

    /// The rendering that `format` asks for.
    pub fn format_output(
        format: &OutputFormat,
        source_platform: &str,
        query: &str,
        conversions: &[(String, String)],
    ) -> (r: String)
        ensures
            r@ == match format {
                OutputFormat::Raw => raw_output(source_platform@, query@, conversions@),
                OutputFormat::Json => json_report(
                    source_platform@,
                    query@,
                    conversion_views(conversions@),
                ),
            },
    {
        match format {
            OutputFormat::Raw => Self::generate_raw_output(source_platform, query, conversions),
            OutputFormat::Json => Self::generate_json_output(source_platform, query, conversions),
        }
    }
}

} // verus!
