//! Requests for syntax-aware searches of a code base, and what comes back.
//!
//! The searches themselves run outside this crate. Here are the shapes of a
//! request and of a response, the limits that hold where a request names
//! none, and the rules by which the results of the single searches make up
//! a response.

use std::collections::HashMap;
use vstd::prelude::*;

verus! {

/// The number of searches that run side by side where a request does not say.
pub const DEFAULT_CONCURRENCY: usize = 4;

/// The number of matches kept of one search where a request does not say.
pub const DEFAULT_MAX_MATCHES: usize = 500;

/// The number of searches that run side by side where a request does not say.
pub fn default_concurrency() -> (n: usize)
    ensures
        n == DEFAULT_CONCURRENCY,
{
    DEFAULT_CONCURRENCY
}

/// The number of matches kept of one search where a request does not say.
pub fn default_max_matches() -> (n: usize)
    ensures
        n == DEFAULT_MAX_MATCHES,
{
    DEFAULT_MAX_MATCHES
}

/// A batch of searches.
#[derive(Debug, Clone)]
pub struct CodeSearchRequest {
    /// The searches, in the order in which their results are wanted.
    pub searches: Vec<SearchSpec>,
    /// How many searches may run side by side.
    pub max_concurrency: usize,
    /// How many matches are kept of each search.
    pub max_matches_per_search: usize,
}

/// One search.
#[derive(Debug, Clone)]
pub struct SearchSpec {
    /// The name under which the result is reported.
    pub name: String,
    /// The query, a tree-sitter S-expression.
    pub query: String,
    /// The language: `rust`, `python`, `javascript` or `typescript`.
    pub language: String,
    /// The paths to search; the current directory where there is none.
    pub paths: Vec<String>,
    /// How many lines around each match are reported with it.
    pub context_lines: usize,
}

/// The results of a batch of searches.
#[derive(Debug)]
pub struct CodeSearchResponse {
    /// The result of each search, in the order of the request.
    pub searches: Vec<SearchResult>,
    /// The number of matches of all searches together.
    pub total_matches: usize,
    /// The number of files that all searches together looked at.
    pub total_files_searched: usize,
}

/// The result of one search.
#[derive(Debug)]
pub struct SearchResult {
    /// The name of the search.
    pub name: String,
    /// The matches, by file in the order of the paths and within a file by
    /// line and column.
    pub matches: Vec<Match>,
    /// The number of matches.
    pub match_count: usize,
    /// The number of files looked at.
    pub files_searched: usize,
    /// Why the search failed, if it did.
    pub error: Option<String>,
}

/// One place where a query matched.
#[derive(Debug)]
pub struct Match {
    /// The file.
    pub file: String,
    /// The line, counted from one.
    pub line: usize,
    /// The column, counted from zero.
    pub column: usize,
    /// The text that matched.
    pub text: String,
    /// The text of each named capture.
    pub captures: HashMap<String, String>,
    /// The lines around the match, where the search asked for them.
    pub context: Option<String>,
}

/// The sum of the match counts of `results`.
pub open spec fn sum_matches(results: Seq<SearchResult>) -> nat
    decreases results.len(),
{
    if results.len() == 0 {
        0
    } else {
        sum_matches(results.drop_last()) + results.last().match_count as nat
    }
}

/// The sum of the numbers of files searched of `results`.
pub open spec fn sum_files(results: Seq<SearchResult>) -> nat
    decreases results.len(),
{
    if results.len() == 0 {
        0
    } else {
        sum_files(results.drop_last()) + results.last().files_searched as nat
    }
}

impl SearchResult {
    /// The result of a search that failed: no match, no file counted, and the
    /// reason. A failed search does not stop the batch.
    pub fn failed(name: &str, reason: &str) -> (result: Self)
        ensures
            result.name@ == name@,
            result.matches@.len() == 0,
            result.match_count == 0,
            result.files_searched == 0,
            result.error matches Some(text) && text@ == reason@,
    {
        SearchResult {
            name: name.to_owned(),
            matches: Vec::new(),
            match_count: 0,
            files_searched: 0,
            error: Some(reason.to_owned()),
        }
    }

    /// The result of a search that ran: its first `max_matches` matches at
    /// most, their number, and the number of files looked at.
    pub fn completed(name: &str, matches: Vec<Match>, files_searched: usize, max_matches: usize) -> (result:
        Self)
        ensures
            result.name@ == name@,
            result.matches@ == if matches@.len() > max_matches {
                matches@.take(max_matches as int)
            } else {
                matches@
            },
            result.match_count == result.matches@.len(),
            result.files_searched == files_searched,
            result.error is None,
    {
        let mut kept = matches;
        if kept.len() > max_matches {
            kept.truncate(max_matches);
        }
        let match_count = kept.len();
        SearchResult {
            name: name.to_owned(),
            matches: kept,
            match_count,
            files_searched,
            error: None,
        }
    }
}

impl CodeSearchResponse {
    /// The response made of the results of the single searches, in their
    /// order, with the totals over all of them. A total that a `usize` cannot
    /// hold is reported as the largest `usize`.
    pub fn new(searches: Vec<SearchResult>) -> (response: Self)
        ensures
            response.searches == searches,
            response.total_matches == if sum_matches(searches@) <= usize::MAX {
                sum_matches(searches@)
            } else {
                usize::MAX as nat
            },
            response.total_files_searched == if sum_files(searches@) <= usize::MAX {
                sum_files(searches@)
            } else {
                usize::MAX as nat
            },
    {
        let mut total_matches: usize = 0;
        let mut total_files_searched: usize = 0;
        let mut i: usize = 0;
        assert(searches@.take(0) =~= Seq::<SearchResult>::empty());
        while i < searches.len()
            invariant
                i <= searches.len(),
                total_matches == if sum_matches(searches@.take(i as int)) <= usize::MAX {
                    sum_matches(searches@.take(i as int))
                } else {
                    usize::MAX as nat
                },
                total_files_searched == if sum_files(searches@.take(i as int)) <= usize::MAX {
                    sum_files(searches@.take(i as int))
                } else {
                    usize::MAX as nat
                },
            decreases searches.len() - i,
        {
            proof {
                let upto = searches@.take(i + 1);
                assert(upto.drop_last() =~= searches@.take(i as int));
                assert(upto.last() == searches@[i as int]);
            }
            total_matches = total_matches.saturating_add(searches[i].match_count);
            total_files_searched = total_files_searched.saturating_add(searches[i].files_searched);
            i += 1;
        }
        assert(searches@.take(searches.len() as int) =~= searches@);
        CodeSearchResponse { searches, total_matches, total_files_searched }
    }
}

} // verus!
