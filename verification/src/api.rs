//! Decision helpers of the API layer: schema-name resolution, export file
//! naming and error-chain formatting.

use vstd::prelude::*;
use crate::text::{chars_of, seq_join, string_of, trim_spec, trim_vec, join_strings};
use crate::model::{StoredConnection, StoredConnectionResponse};

verus! {

/// A schema override counts only when it is non-blank after trimming.
pub open spec fn spec_normalize_schema(value: Option<Seq<char>>) -> Option<Seq<char>> {
    match value {
        Some(v) => if trim_spec(v).len() > 0 {
            Some(trim_spec(v))
        } else {
            None
        },
        None => None,
    }
}

/// Trims an optional schema value and drops it when blank.
pub fn normalize_schema_value(value: Option<&str>) -> (r: Option<String>)
    ensures
        match r {
            Some(s) => spec_normalize_schema(
                match value {
                    Some(v) => Some(v@),
                    None => None,
                },
            ) == Some(s@),
            None => spec_normalize_schema(
                match value {
                    Some(v) => Some(v@),
                    None => None,
                },
            ) is None,
        },
{
    match value {
        Some(v) => {
            let cv = chars_of(v);
            let t = trim_vec(&cv);
            if t.len() > 0 {
                Some(string_of(&t))
            } else {
                None
            }
        },
        None => None,
    }
}

/// The effective target schema: the trimmed override when non-blank, else
/// the trimmed source schema.
pub open spec fn spec_resolve_target_schema(
    source: Seq<char>,
    export_schema: Option<Seq<char>>,
) -> Seq<char> {
    match spec_normalize_schema(export_schema) {
        Some(v) => v,
        None => trim_spec(source),
    }
}

/// Resolves the target schema name from the optional override.
pub fn resolve_target_schema(source: &str, export_schema: Option<&str>) -> (r: String)
    ensures
        r@ == spec_resolve_target_schema(
            source@,
            match export_schema {
                Some(v) => Some(v@),
                None => None,
            },
        ),
{
    match normalize_schema_value(export_schema) {
        Some(v) => v,
        None => {
            let cv = chars_of(source);
            let t = trim_vec(&cv);
            string_of(&t)
        },
    }
}

/// The output path of an export run, under the exports directory.
pub fn format_export_filename(source: &str, target: &str, kind: &str, suffix: &str) -> (r: String)
    ensures
        r@ == "exports/"@ + trim_spec(source@) + "_to_"@ + trim_spec(target@) + "_"@ + kind@ + "_"@
            + suffix@ + ".sql"@,
{
    let mut s = String::from_str("exports/");
    let sv = chars_of(source);
    let st = trim_vec(&sv);
    let sts = string_of(&st);
    s.append(sts.as_str());
    s.append("_to_");
    let tv = chars_of(target);
    let tt = trim_vec(&tv);
    let tts = string_of(&tt);
    s.append(tts.as_str());
    s.append("_");
    s.append(kind);
    s.append("_");
    s.append(suffix);
    s.append(".sql");
    s
}

/// One descriptive string for a layered error: the context messages from
/// the outermost in, separated by colons.
pub fn format_error_chain(messages: &Vec<String>) -> (r: String)
    ensures
        r@ == seq_join(messages.deep_view(), ": "@),
{
    join_strings(messages, ": ")
}

/// The response shape for a stored connection.
pub fn to_response(stored: StoredConnection) -> (r: StoredConnectionResponse)
    ensures
        r.config == stored.config,
        r.source == stored.source,
        r.updated_at == stored.updated_at,
{
    StoredConnectionResponse {
        config: stored.config,
        source: stored.source,
        updated_at: stored.updated_at,
    }
}

} // verus!
