//! Metadata scraping for the ypshuo / youshu book sites: search parameters,
//! HTML extraction, result shaping and the search control flow.

pub mod text;
pub mod model;
pub mod encode;
pub mod html;
pub mod search;
pub mod flow;
pub mod laws;

pub use flow::{
    after_backup, after_primary, check_read_length, check_request_handle, check_response_size,
    initialize, resolve_method, shutdown, start_search, Method, SearchStep,
};
pub use html::{
    decode_html_entities, extract_between, parse_book_detail_page, parse_single_book,
    parse_youshu_html,
};
pub use model::{BookItem, SearchParams, SearchResult, YpshuoBook, YpshuoResponse, YpshuoSearchData};
pub use search::{
    apply_author_filter, backup_search_body, backup_search_result, backup_search_url,
    book_from_ypshuo, default_page, primary_search_result, primary_search_url,
};
