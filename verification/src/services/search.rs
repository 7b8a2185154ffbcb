//! Web search through the Tavily API: reading the call and laying out results.
use vstd::prelude::*;
use crate::services::json::{str_member, str_member_of};
use crate::services::url_reader::ToolArgument;
use crate::utils::{decimal, decimal_string};

verus! {

/// The tool that lets the model search the web.
pub struct SearchTool {
    pub api_key: String,
}

/// One search hit.
pub struct SearchResult {
    pub title: String,
    pub url: String,
    pub content: String,
}

/// One hit as the model reads it, numbered from 1.
pub open spec fn spec_result_entry(number: nat, r: SearchResult) -> Seq<char> {
    "["@ + decimal(number) + "] "@ + r.title@ + "\n"@ + r.url@ + "\n"@ + r.content@ + "\n\n"@
}

/// The entries of `results`, numbered from `first`.
pub open spec fn spec_result_entries(results: Seq<SearchResult>, first: nat) -> Seq<char>
    decreases results.len(),
{
    if results.len() == 0 {
        seq![]
    } else {
        spec_result_entry(first, results[0]) + spec_result_entries(results.drop_first(), first + 1)
    }
}

/// All hits as the model reads them, or that there were none.
pub open spec fn spec_format_results(results: Seq<SearchResult>) -> Seq<char> {
    let out = spec_result_entries(results, 1);
    if out.len() == 0 { "No results found."@ } else { out }
}

/// Every hit is laid out, in order: one more hit adds its entry, numbered
/// after all the others, at the end; no hits read "No results found.".
pub proof fn lemma_format_results_push(results: Seq<SearchResult>, r: SearchResult)
    ensures
        spec_format_results(Seq::<SearchResult>::empty()) == "No results found."@,
        spec_format_results(results.push(r)) == (if results.len() == 0 {
            Seq::<char>::empty()
        } else {
            spec_format_results(results)
        }) + spec_result_entry((results.len() + 1) as nat, r),
{
    let all = results.push(r);
    let n = results.len() as int;
    assert(spec_result_entries(Seq::<SearchResult>::empty(), 1) =~= Seq::<char>::empty());
    lemma_entries_split(all, n);
    assert(all.take(n + 1) =~= all);
    assert(all.take(n) =~= results);
    reveal_strlit("[");
    let e = spec_result_entry((n + 1) as nat, r);
    assert(e.len() > 0);
    if n == 0 {
        assert(spec_result_entries(results, 1) =~= Seq::<char>::empty());
        assert(Seq::<char>::empty() + e =~= e);
    } else {
        lemma_entries_nonempty(results);
    }
}

proof fn lemma_entries_nonempty(results: Seq<SearchResult>)
    requires
        results.len() > 0,
    ensures
        spec_result_entries(results, 1).len() > 0,
{
    reveal_strlit("[");
    assert(spec_result_entry(1, results[0]).len() > 0);
}

proof fn lemma_entries_split(results: Seq<SearchResult>, i: int)
    requires
        0 <= i < results.len(),
    ensures
        spec_result_entries(results.take(i + 1), 1) == spec_result_entries(results.take(i), 1)
            + spec_result_entry((i + 1) as nat, results[i]),
    decreases i,
{
    lemma_entries_from(results.take(i + 1), 1, i);
    assert(results.take(i + 1).take(i) =~= results.take(i));
    let one = results.take(i + 1).skip(i);
    assert(one.len() == 1);
    assert(one[0] == results[i]);
    assert(one.drop_first() =~= Seq::<SearchResult>::empty());
    let e = spec_result_entry((i + 1) as nat, results[i]);
    assert(spec_result_entries(one.drop_first(), (2 + i) as nat) =~= Seq::<char>::empty());
    assert(spec_result_entries(one, (1 + i) as nat) =~= e + Seq::<char>::empty());
    assert(e + Seq::<char>::empty() =~= e);
}

/// Entries from `first` split at position `i`: the first `i` entries, then the rest.
proof fn lemma_entries_from(results: Seq<SearchResult>, first: nat, i: int)
    requires
        0 <= i <= results.len(),
    ensures
        spec_result_entries(results, first) == spec_result_entries(results.take(i), first)
            + spec_result_entries(results.skip(i), first + i as nat),
    decreases i,
{
    if i == 0 {
        assert(results.take(0) =~= Seq::<SearchResult>::empty());
        assert(results.skip(0) =~= results);
        assert(spec_result_entries(results.take(0), first) =~= Seq::<char>::empty());
        assert(Seq::<char>::empty() + spec_result_entries(results, first) =~= spec_result_entries(results, first));
    } else {
        let d = results.drop_first();
        lemma_entries_from(d, first + 1, i - 1);
        assert(results.take(i).drop_first() =~= d.take(i - 1));
        assert(results.take(i)[0] == results[0]);
        assert(d.skip(i - 1) =~= results.skip(i));
        assert(spec_result_entries(results, first) =~= spec_result_entries(results.take(i), first)
            + spec_result_entries(results.skip(i), first + i as nat));
    }
}

impl SearchTool {
    pub fn new(api_key: String) -> (t: SearchTool)
        ensures
            t.api_key == api_key,
    {
        SearchTool { api_key }
    }

    /// Name under which the model calls the tool.
    pub fn name(&self) -> (s: &'static str)
        ensures
            s@ == "web_search"@,
    {
        "web_search"
    }

    /// What the model is told the tool does.
    pub fn description(&self) -> (s: &'static str)
        ensures
            s@ == "Search the web for current information. Use when the user asks about \
             recent events, real-time data, or anything requiring up-to-date knowledge."@,
    {
        "Search the web for current information. Use when the user asks about \
         recent events, real-time data, or anything requiring up-to-date knowledge."
    }

    /// The query a call asks for: the string member `query` of its JSON arguments.
    pub fn query_argument(&self, arguments: &str) -> (a: ToolArgument)
        ensures
            match a {
                ToolArgument::Valid(q) => str_member_of(arguments@, "query"@) == Some(q@),
                ToolArgument::Invalid(m) => str_member_of(arguments@, "query"@) is None
                    && m@ == "Invalid search arguments."@,
            },
    {
        match str_member(arguments, "query") {
            Some(q) => ToolArgument::Valid(q),
            None => ToolArgument::Invalid(String::from_str("Invalid search arguments.")),
        }
    }

    /// The tool's answer from what the search gave.
    pub fn answer(&self, searched: Result<String, String>) -> (s: String)
        ensures
            s@ == match searched {
                Ok(r) => r@,
                Err(e) => "Search failed: "@ + e@,
            },
    {
        match searched {
            Ok(results) => results,
            Err(e) => {
                let mut s = String::from_str("Search failed: ");
                s.append(e.as_str());
                s
            },
        }
    }
}

/// The error for an answer of the search API with a status other than success.
pub fn api_error(status: u16, body: &str) -> (s: String)
    ensures
        s@ == "Tavily API error ("@ + decimal(status as nat) + "): "@ + body@,
{
    let mut s = String::from_str("Tavily API error (");
    s.append(decimal_string(status as u64).as_str());
    s.append("): ");
    s.append(body);
    s
}

/// Lays the hits out for the model, numbered from 1.
pub fn format_results(results: &Vec<SearchResult>) -> (s: String)
    ensures
        s@ == spec_format_results(results@),
{
    let mut out = String::new();
    let mut i: usize = 0;
    proof {
        assert(spec_result_entries(results@.take(0), 1) =~= Seq::<char>::empty());
    }
    while i < results.len()
        invariant
            i <= results.len(),
            out@ == spec_result_entries(results@.take(i as int), 1),
        decreases results.len() - i,
    {
        let r = &results[i];
        out.append("[");
        out.append(decimal_string((i + 1) as u64).as_str());
        out.append("] ");
        out.append(r.title.as_str());
        out.append("\n");
        out.append(r.url.as_str());
        out.append("\n");
        out.append(r.content.as_str());
        out.append("\n\n");
        proof {
            lemma_entries_split(results@, i as int);
        }
        i = i + 1;
    }
    proof {
        assert(results@.take(results.len() as int) =~= results@);
    }
    if out.as_str().is_empty() {
        return String::from_str("No results found.");
    }
    out
}

} // verus!
