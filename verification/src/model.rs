//! The library's data: search parameters, book items, search results and the
//! records of the primary API, each with a mathematical view.

use vstd::prelude::*;
use crate::text::strings_view;

verus! {

/// The character sequence of an optional string.
pub open spec fn opt_chars(o: Option<String>) -> Option<Seq<char>> {
    match o {
        Some(s) => Some(s@),
        None => None,
    }
}

/// The character sequence of an optional string slice.
pub open spec fn opt_str_chars(o: Option<&str>) -> Option<Seq<char>> {
    match o {
        Some(s) => Some(s@),
        None => None,
    }
}

/// A result whose error is a message, seen through views.
pub open spec fn result_view<T: View>(r: Result<T, String>) -> Result<T::V, Seq<char>> {
    match r {
        Ok(v) => Ok(v@),
        Err(e) => Err(e@),
    }
}

/// The parameters of a search call.
#[derive(Debug, Clone, PartialEq)]
pub struct SearchParams {
    pub query: Option<String>,
    pub title: Option<String>,
    pub page: u32,
    pub author: Option<String>,
    pub narrator: Option<String>,
}

/// The view of [`SearchParams`].
pub ghost struct SearchParamsView {
    pub query: Option<Seq<char>>,
    pub title: Option<Seq<char>>,
    pub page: u32,
    pub author: Option<Seq<char>>,
    pub narrator: Option<Seq<char>>,
}

impl View for SearchParams {
    type V = SearchParamsView;

    open spec fn view(&self) -> SearchParamsView {
        SearchParamsView {
            query: opt_chars(self.query),
            title: opt_chars(self.title),
            page: self.page,
            author: opt_chars(self.author),
            narrator: opt_chars(self.narrator),
        }
    }
}

/// One book as the plugin reports it.
#[derive(Debug, Clone, PartialEq)]
pub struct BookItem {
    pub id: String,
    pub title: String,
    pub author: String,
    pub cover_url: Option<String>,
    pub intro: Option<String>,
    pub narrator: Option<String>,
    pub tags: Vec<String>,
    pub chapter_count: Option<u32>,
    pub duration: Option<u64>,
}

/// The view of [`BookItem`].
pub ghost struct BookInfo {
    pub id: Seq<char>,
    pub title: Seq<char>,
    pub author: Seq<char>,
    pub cover_url: Option<Seq<char>>,
    pub intro: Option<Seq<char>>,
    pub narrator: Option<Seq<char>>,
    pub tags: Seq<Seq<char>>,
    pub chapter_count: Option<u32>,
    pub duration: Option<u64>,
}

impl View for BookItem {
    type V = BookInfo;

    open spec fn view(&self) -> BookInfo {
        BookInfo {
            id: self.id@,
            title: self.title@,
            author: self.author@,
            cover_url: opt_chars(self.cover_url),
            intro: opt_chars(self.intro),
            narrator: opt_chars(self.narrator),
            tags: strings_view(self.tags@),
            chapter_count: self.chapter_count,
            duration: self.duration,
        }
    }
}

/// The views of a sequence of books.
pub open spec fn books_view(v: Seq<BookItem>) -> Seq<BookInfo> {
    v.map_values(|b: BookItem| b@)
}

/// The view of an optional book.
pub open spec fn opt_book(o: Option<BookItem>) -> Option<BookInfo> {
    match o {
        Some(b) => Some(b@),
        None => None,
    }
}

/// The answer to a search.
#[derive(Debug, Clone, PartialEq)]
pub struct SearchResult {
    pub items: Vec<BookItem>,
    pub total: u32,
    pub page: u32,
    pub page_size: u32,
}

/// The view of [`SearchResult`].
pub ghost struct SearchResultView {
    pub items: Seq<BookInfo>,
    pub total: u32,
    pub page: u32,
    pub page_size: u32,
}

impl View for SearchResult {
    type V = SearchResultView;

    open spec fn view(&self) -> SearchResultView {
        SearchResultView {
            items: books_view(self.items@),
            total: self.total,
            page: self.page,
            page_size: self.page_size,
        }
    }
}

/// One book in the primary API's answer.
#[derive(Debug, Clone, PartialEq)]
pub struct YpshuoBook {
    pub id: u32,
    pub novel_name: String,
    pub tags: Option<String>,
    pub author_name: String,
    pub novel_img: String,
    pub synopsis: String,
}

/// The `data` object of the primary API's search answer.
#[derive(Debug, Clone, PartialEq)]
pub struct YpshuoSearchData {
    pub data: Vec<YpshuoBook>,
}

/// The primary API's answer: a status code and, when found, the data.
#[derive(Debug, Clone, PartialEq)]
pub struct YpshuoResponse {
    pub code: String,
    pub data: Option<YpshuoSearchData>,
}

} // verus!
