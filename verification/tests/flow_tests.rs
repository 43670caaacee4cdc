use ypshuo_scraper::{
    after_backup, after_primary, check_read_length, check_request_handle, check_response_size,
    initialize, resolve_method, shutdown, start_search, Method, SearchParams, SearchStep,
    YpshuoResponse,
};

fn params(title: Option<&str>) -> SearchParams {
    SearchParams { query: None, title: title.map(|s| s.to_string()), page: 1, author: None, narrator: None }
}

#[test]
fn search_starts_with_primary() {
    match start_search(&params(Some("ab"))) {
        SearchStep::FetchPrimary { url } => {
            assert_eq!(url, "https://m.ypshuo.com/api/novel/search?keyword=ab&searchType=1&page=1")
        }
        other => panic!("unexpected {:?}", other),
    }
}

#[test]
fn search_without_keyword_fails_both() {
    let msg = "Missing required search field: title";
    assert_eq!(
        start_search(&params(None)),
        SearchStep::Finished(Err(format!("Both APIs failed. Primary: {}; Backup: {}", msg, msg)))
    );
}

#[test]
fn primary_failure_goes_to_backup() {
    let p = params(Some("ab"));
    match after_primary(&p, Err("HTTP request failed: 3".to_string())) {
        SearchStep::FetchBackup { url, body, primary_error } => {
            assert_eq!(url, "https://www.youshu.me/modules/article/search.php");
            assert_eq!(body, "searchtype=all&searchkey=ab&t_btnsearch=");
            assert_eq!(primary_error, "HTTP request failed: 3");
        }
        other => panic!("unexpected {:?}", other),
    }
    let resp = YpshuoResponse { code: "99".to_string(), data: None };
    match after_primary(&p, Ok(resp)) {
        SearchStep::FetchBackup { primary_error, .. } => assert_eq!(primary_error, "API Error: 99"),
        other => panic!("unexpected {:?}", other),
    }
}

#[test]
fn primary_success_finishes() {
    let resp = YpshuoResponse { code: "00".to_string(), data: None };
    match after_primary(&params(Some("ab")), Ok(resp)) {
        SearchStep::Finished(Ok(r)) => assert_eq!((r.items.len(), r.total, r.page_size), (0, 100, 20)),
        other => panic!("unexpected {:?}", other),
    }
}

#[test]
fn backup_failure_names_both() {
    let p = params(Some("ab"));
    assert_eq!(
        after_backup(&p, "API Error: 1", Err("Failed to read body".to_string())),
        SearchStep::Finished(Err("Both APIs failed. Primary: API Error: 1; Backup: Failed to read body".to_string()))
    );
    assert_eq!(
        after_backup(&p, "E", Ok(b"<html></html>".to_vec())),
        SearchStep::Finished(Err("Both APIs failed. Primary: E; Backup: No books found in HTML response".to_string()))
    );
}

#[test]
fn backup_page_bytes_are_decoded() {
    let mut bytes = b"<div class=\"c_row\"><span class=\"c_subject\"><a href=\"/book/5\">".to_vec();
    bytes.push(0xff);
    bytes.extend_from_slice("五</a></span><span class=\"c_label\">作者：</span><span class=\"c_value\">某</span>".as_bytes());
    match after_backup(&params(Some("ab")), "E", Ok(bytes)) {
        SearchStep::Finished(Ok(r)) => {
            assert_eq!(r.items.len(), 1);
            assert_eq!(r.items[0].title, "\u{fffd}五");
            assert_eq!(r.items[0].author, "某");
        }
        other => panic!("unexpected {:?}", other),
    }
}

#[test]
fn methods_resolve() {
    assert_eq!(resolve_method("search"), Ok(Method::Search));
    assert_eq!(resolve_method("detail"), Err("Unknown method: detail".to_string()));
    assert_eq!(resolve_method("Search"), Err("Unknown method: Search".to_string()));
}

#[test]
fn request_handles_checked() {
    assert_eq!(check_request_handle(0, false), Ok(0));
    assert_eq!(check_request_handle(7, true), Ok(7));
    assert_eq!(check_request_handle(-5, false), Err("HTTP request failed: 5".to_string()));
    assert_eq!(check_request_handle(-42, true), Err("HTTP POST request failed: 42".to_string()));
    assert_eq!(check_request_handle(i32::MIN, false), Err("HTTP request failed: -2147483648".to_string()));
}

#[test]
fn sizes_and_reads_checked() {
    assert_eq!(check_response_size(10), Ok(10));
    assert_eq!(check_response_size(-1), Err("Failed to get response size".to_string()));
    assert_eq!(check_read_length(0), Ok(()));
    assert_eq!(check_read_length(-2), Err("Failed to read body".to_string()));
}

#[test]
fn lifecycle_succeeds() {
    assert_eq!(initialize(), 0);
    assert_eq!(shutdown(), 0);
}
