//! The URLs the program talks to: an OpenAI-compatible chat endpoint,
//! Vertex AI's streaming endpoint, and BigQuery's row insertion.
use vstd::prelude::*;
use crate::text::{chars_of, push_str, string_of};

verus! {

/// `s` without its trailing `/` characters (`str::trim_end_matches('/')`).
pub open spec fn trim_slashes(s: Seq<char>) -> Seq<char>
    decreases s.len(),
{
    if s.len() > 0 && s.last() == '/' {
        trim_slashes(s.drop_last())
    } else {
        s
    }
}

/// The base URL of an OpenAI-compatible API, without trailing slashes.
pub fn api_base(url: &str) -> (r: String)
    ensures
        r@ == trim_slashes(url@),
{
    let s = chars_of(url);
    let mut n: usize = s.len();
    assert(s@.take(s.len() as int) =~= s@);
    while n > 0 && s[n - 1] == '/'
        invariant
            n <= s.len(),
            trim_slashes(s@.take(n as int)) == trim_slashes(s@),
        decreases n,
    {
        assert(s@.take(n as int).drop_last() =~= s@.take(n - 1));
        n = n - 1;
    }
    let r = crate::text::slice_chars(&s, 0, n);
    assert(r@ =~= s@.take(n as int));
    string_of(&r)
}

/// The chat-completions URL under a base URL.
pub fn chat_completions_url(base: &str) -> (r: String)
    ensures
        r@ == base@ + "/chat/completions"@,
{
    let mut u = chars_of(base);
    push_str(&mut u, "/chat/completions");
    string_of(&u)
}

pub open spec fn vertex_url(region: Seq<char>, project: Seq<char>, model: Seq<char>) -> Seq<char> {
    "https://"@ + region + "-aiplatform.googleapis.com/v1/projects/"@ + project + "/locations/"@
        + region + "/publishers/google/models/"@ + model + ":streamGenerateContent?alt=sse"@
}

/// The URL that streams a Gemini model's answer in server-sent events.
pub fn vertex_stream_url(region: &str, project: &str, model: &str) -> (r: String)
    ensures
        r@ == vertex_url(region@, project@, model@),
{
    let mut u = chars_of("https://");
    push_str(&mut u, region);
    push_str(&mut u, "-aiplatform.googleapis.com/v1/projects/");
    push_str(&mut u, project);
    push_str(&mut u, "/locations/");
    push_str(&mut u, region);
    push_str(&mut u, "/publishers/google/models/");
    push_str(&mut u, model);
    push_str(&mut u, ":streamGenerateContent?alt=sse");
    string_of(&u)
}

pub open spec fn bigquery_url(project: Seq<char>, dataset: Seq<char>, table: Seq<char>) -> Seq<char> {
    "https://bigquery.googleapis.com/bigquery/v2/projects/"@ + project + "/datasets/"@ + dataset
        + "/tables/"@ + table + "/insertAll"@
}

/// The URL that inserts rows into a BigQuery table.
pub fn bigquery_insert_url(project: &str, dataset: &str, table: &str) -> (r: String)
    ensures
        r@ == bigquery_url(project@, dataset@, table@),
{
    let mut u = chars_of("https://bigquery.googleapis.com/bigquery/v2/projects/");
    push_str(&mut u, project);
    push_str(&mut u, "/datasets/");
    push_str(&mut u, dataset);
    push_str(&mut u, "/tables/");
    push_str(&mut u, table);
    push_str(&mut u, "/insertAll");
    string_of(&u)
}

} // verus!
