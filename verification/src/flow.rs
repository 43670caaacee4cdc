//! The decisions of the plugin between its calls to the host: the steps of a
//! search, the methods it answers, and the checks on the host's HTTP results.

use vstd::prelude::*;
use vstd::string::*;
use crate::text::{signed_decimal, signed_decimal_string, str_eq};
use crate::encode::{decode_utf8_lossy, utf8_lossy};
use crate::model::{result_view, SearchParams, SearchParamsView, SearchResult, SearchResultView, YpshuoResponse};
use crate::search::{
    backup_body, backup_result, backup_search_body, backup_search_result, backup_search_url,
    primary_result, primary_search_result, primary_search_url, primary_url,
};

verus! {

/// What a search does next.
#[derive(Debug, PartialEq)]
pub enum SearchStep {
    /// Fetch this address from the primary API.
    FetchPrimary { url: String },
    /// Post this form body to the backup site; the primary API failed so.
    FetchBackup { url: String, body: String, primary_error: String },
    /// The search is over, with this answer.
    Finished(Result<SearchResult, String>),
}

/// The view of [`SearchStep`].
pub ghost enum SearchStepView {
    FetchPrimary { url: Seq<char> },
    FetchBackup { url: Seq<char>, body: Seq<char>, primary_error: Seq<char> },
    Finished(Result<SearchResultView, Seq<char>>),
}

impl View for SearchStep {
    type V = SearchStepView;

    open spec fn view(&self) -> SearchStepView {
        match self {
            SearchStep::FetchPrimary { url } => SearchStepView::FetchPrimary { url: url@ },
            SearchStep::FetchBackup { url, body, primary_error } => SearchStepView::FetchBackup {
                url: url@,
                body: body@,
                primary_error: primary_error@,
            },
            SearchStep::Finished(r) => SearchStepView::Finished(result_view(*r)),
        }
    }
}

/// The error of a search that both sites failed.
pub open spec fn both_failed(primary: Seq<char>, backup: Seq<char>) -> Seq<char> {
    "Both APIs failed. Primary: "@ + primary + "; Backup: "@ + backup
}

/// The step after the primary API failed: post to the backup site, or, when
/// there is no keyword for it, finish with both errors.
pub open spec fn backup_step(p: SearchParamsView, primary_error: Seq<char>) -> SearchStepView {
    match backup_body(p) {
        Ok(body) => SearchStepView::FetchBackup {
            url: "https://www.youshu.me/modules/article/search.php"@,
            body,
            primary_error,
        },
        Err(e) => SearchStepView::Finished(Err(both_failed(primary_error, e))),
    }
}

/// The first step of a search: fetch from the primary API, or go to the
/// backup site when there is no address for it.
pub open spec fn first_step(p: SearchParamsView) -> SearchStepView {
    match primary_url(p) {
        Ok(url) => SearchStepView::FetchPrimary { url },
        Err(e) => backup_step(p, e),
    }
}

/// The step after the primary API answered (or the fetch or decoding of its
/// answer failed with a message): finish with its result, or go to the backup
/// site with its error.
pub open spec fn step_after_primary(
    p: SearchParamsView,
    answer: Result<YpshuoResponse, String>,
) -> SearchStepView {
    match answer {
        Err(e) => backup_step(p, e@),
        Ok(resp) => match primary_result(resp, p) {
            Ok(r) => SearchStepView::Finished(Ok(r)),
            Err(e) => backup_step(p, e),
        },
    }
}

/// The step after the backup site answered with the bytes of a page (or its
/// fetch failed with a message): finish with the result of the page, decoded
/// as UTF-8 with invalid sequences replaced, or with both errors.
pub open spec fn step_after_backup(
    p: SearchParamsView,
    primary_error: Seq<char>,
    answer: Result<Vec<u8>, String>,
) -> SearchStepView {
    SearchStepView::Finished(
        match answer {
            Err(e) => Err(both_failed(primary_error, e@)),
            Ok(body) => match backup_result(utf8_lossy(body@), p) {
                Ok(r) => Ok(r),
                Err(e) => Err(both_failed(primary_error, e)),
            },
        },
    )
}

/// Concatenates the error of a search that both sites failed.
fn both_failed_message(primary: &str, backup: &str) -> (r: String)
    ensures
        r@ == both_failed(primary@, backup@),
{
    let mut r = String::from_str("Both APIs failed. Primary: ");
    r.append(primary);
    r.append("; Backup: ");
    r.append(backup);
    r
}

/// Goes to the backup site after the primary API failed.
fn to_backup(params: &SearchParams, primary_error: String) -> (r: SearchStep)
    ensures
        r@ == backup_step(params@, primary_error@),
{
    match backup_search_body(params) {
        Ok(body) => SearchStep::FetchBackup {
            url: String::from_str(backup_search_url()),
            body,
            primary_error,
        },
        Err(e) => SearchStep::Finished(
            Err(both_failed_message(primary_error.as_str(), e.as_str())),
        ),
    }
}

/// The first step of a search.
pub fn start_search(params: &SearchParams) -> (r: SearchStep)
    ensures
        r@ == first_step(params@),
{
    match primary_search_url(params) {
        Ok(url) => SearchStep::FetchPrimary { url },
        Err(e) => to_backup(params, e),
    }
}

/// The step after the primary API's answer.
pub fn after_primary(params: &SearchParams, answer: Result<YpshuoResponse, String>) -> (r:
    SearchStep)
    ensures
        r@ == step_after_primary(params@, answer),
{
    match answer {
        Err(e) => to_backup(params, e),
        Ok(resp) => match primary_search_result(resp, params) {
            Ok(result) => SearchStep::Finished(Ok(result)),
            Err(e) => to_backup(params, e),
        },
    }
}

/// The step after the backup site's answer.
pub fn after_backup(params: &SearchParams, primary_error: &str, answer: Result<Vec<u8>, String>) -> (r:
    SearchStep)
    ensures
        r@ == step_after_backup(params@, primary_error@, answer),
{
    match answer {
        Err(e) => SearchStep::Finished(Err(both_failed_message(primary_error, e.as_str()))),
        Ok(body) => match backup_search_result(decode_utf8_lossy(body.as_slice()).as_str(), params) {
            Ok(result) => SearchStep::Finished(Ok(result)),
            Err(e) => SearchStep::Finished(Err(both_failed_message(primary_error, e.as_str()))),
        },
    }
}

/// The methods that the plugin answers.
#[derive(Debug, Clone, Copy, PartialEq, Eq)]
pub enum Method {
    Search,
}

/// The method that a name calls for, or an error that names it.
pub fn resolve_method(method: &str) -> (r: Result<Method, String>)
    ensures
        r is Ok <==> method@ == "search"@,
        r matches Err(e) ==> e@ == "Unknown method: "@ + method@,
{
    if str_eq(method, "search") {
        Ok(Method::Search)
    } else {
        let mut e = String::from_str("Unknown method: ");
        e.append(method);
        Err(e)
    }
}

/// `-h` as a release build computes it for an `i32`: wrapping at `i32::MIN`.
pub open spec fn wrapped_negation(h: i32) -> int {
    if h == i32::MIN {
        h as int
    } else {
        -h
    }
}

/// The outcome of the host's request call: its handle when not negative,
/// else an error that names the negated code.
pub open spec fn request_outcome(handle: i32, post: bool) -> Result<i32, Seq<char>> {
    if handle >= 0 {
        Ok(handle)
    } else if post {
        Err("HTTP POST request failed: "@ + signed_decimal(wrapped_negation(handle)))
    } else {
        Err("HTTP request failed: "@ + signed_decimal(wrapped_negation(handle)))
    }
}

/// Checks the handle that the host returned for a request (`post` for a
/// POST request).
pub fn check_request_handle(handle: i32, post: bool) -> (r: Result<i32, String>)
    ensures
        result_view(r) == request_outcome(handle, post),
{
    if handle >= 0 {
        return Ok(handle);
    }
    let code: i64 = if handle == i32::MIN {
        handle as i64
    } else {
        -(handle as i64)
    };
    let digits = signed_decimal_string(code);
    let mut e = if post {
        String::from_str("HTTP POST request failed: ")
    } else {
        String::from_str("HTTP request failed: ")
    };
    e.append(digits.as_str());
    Err(e)
}

/// Checks the response size that the host returned; the size when valid.
pub fn check_response_size(size: i32) -> (r: Result<usize, String>)
    ensures
        size >= 0 ==> r == Ok::<usize, String>(size as usize),
        size < 0 ==> (r matches Err(e) && e@ == "Failed to get response size"@),
{
    if size < 0 {
        Err(String::from_str("Failed to get response size"))
    } else {
        Ok(size as usize)
    }
}

/// Checks the length that the host returned for a body read.
pub fn check_read_length(read_len: i32) -> (r: Result<(), String>)
    ensures
        read_len >= 0 ==> r is Ok,
        read_len < 0 ==> (r matches Err(e) && e@ == "Failed to read body"@),
{
    if read_len < 0 {
        Err(String::from_str("Failed to read body"))
    } else {
        Ok(())
    }
}

/// The plugin's start-up: nothing to prepare, success (0).
pub fn initialize() -> (r: i32)
    ensures
        r == 0,
{
    0
}

/// The plugin's shut-down: nothing to release, success (0).
pub fn shutdown() -> (r: i32)
    ensures
        r == 0,
{
    0
}

} // verus!
