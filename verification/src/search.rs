//! Search parameters, the author preference, the shaping of the answers of
//! both sites, and the decisions of a search between the fetches.

use vstd::prelude::*;
use vstd::string::*;
use vstd::utf8::encode_utf8;
use crate::text::{
    chars_of, comma_tags, comma_tags_exec, contains, decimal, decimal_string, find_chars,
    first_piece, first_piece_str, str_eq, trim, trim_str,
};
use crate::encode::{form_urlencode, form_urlencode_str, lowercase_of, to_lowercase};
use crate::html::{parse_youshu_html, secure_cover, secure_cover_url, youshu_books};
use crate::model::{
    books_view, opt_chars, result_view, BookInfo, BookItem, SearchParams, SearchParamsView,
    SearchResult, SearchResultView, YpshuoBook, YpshuoResponse,
};

verus! {

/// The trimmed text of an optional field, when it is not blank.
pub open spec fn nonblank(o: Option<Seq<char>>) -> Option<Seq<char>> {
    match o {
        Some(t) => if trim(t).len() > 0 {
            Some(trim(t))
        } else {
            None
        },
        None => None,
    }
}

/// The keyword of a search: the trimmed title when it is not blank, else the
/// trimmed query when it is not blank, else an error that names the title.
pub open spec fn search_keyword(p: SearchParamsView) -> Result<Seq<char>, Seq<char>> {
    match nonblank(p.title) {
        Some(t) => Ok(t),
        None => match nonblank(p.query) {
            Some(q) => Ok(q),
            None => Err("Missing required search field: title"@),
        },
    }
}

/// The trimmed text of an optional string, when it is not blank.
fn nonblank_str(o: &Option<String>) -> (r: Option<&str>)
    ensures
        match r {
            Some(t) => nonblank(opt_chars(*o)) == Some(t@),
            None => nonblank(opt_chars(*o)) is None,
        },
{
    match o {
        Some(t) => {
            let k = trim_str(t.as_str());
            if k.unicode_len() > 0 {
                Some(k)
            } else {
                None
            }
        },
        None => None,
    }
}

impl SearchParams {
    /// The keyword to search for.
    pub fn keyword(&self) -> (r: Result<&str, String>)
        ensures
            result_view(r) == search_keyword(self@),
    {
        match nonblank_str(&self.title) {
            Some(t) => return Ok(t),
            None => {},
        }
        match nonblank_str(&self.query) {
            Some(q) => return Ok(q),
            None => {},
        }
        Err(String::from_str("Missing required search field: title"))
    }
}

/// The page that a search asks for when it names none.
pub fn default_page() -> (r: u32)
    ensures
        r == 1,
{
    1
}

/// How an author is compared: trimmed and lowercased.
pub open spec fn author_key(author: Seq<char>) -> Seq<char> {
    lowercase_of(trim(author))
}

/// An author matches the wanted (trimmed, lowercased) name when its key is
/// not empty and one of the two contains the other.
pub open spec fn author_matches(author: Seq<char>, wanted: Seq<char>) -> bool {
    let k = author_key(author);
    k.len() > 0 && (contains(k, wanted) || contains(wanted, k))
}

/// The first index at or after `i` of a book whose author matches.
pub open spec fn first_author_match(items: Seq<BookInfo>, wanted: Seq<char>, i: int) -> Option<int>
    decreases items.len() - i,
{
    if i < 0 || i >= items.len() {
        None
    } else if author_matches(items[i].author, wanted) {
        Some(i)
    } else {
        first_author_match(items, wanted, i + 1)
    }
}

/// `s` with its item at `i` moved to the front, the others in order.
pub open spec fn move_to_front<A>(s: Seq<A>, i: int) -> Seq<A> {
    seq![s[i]] + s.remove(i)
}

/// The books with the first one whose author matches a non-empty filter moved
/// to the front; unchanged when there is no filter, it is empty, or no
/// author matches.
pub open spec fn author_filtered(items: Seq<BookInfo>, filter: Option<Seq<char>>) -> Seq<BookInfo> {
    match filter {
        Some(f) => if f.len() > 0 {
            match first_author_match(items, lowercase_of(trim(f)), 0) {
                Some(i) => move_to_front(items, i),
                None => items,
            }
        } else {
            items
        },
        None => items,
    }
}

/// Whether `a` and `b` have a non-empty `a` and one contains the other.
fn key_matches(a: &str, b: &str) -> (r: bool)
    ensures
        r == (a@.len() > 0 && (contains(a@, b@) || contains(b@, a@))),
{
    let ac = chars_of(a);
    let bc = chars_of(b);
    ac.len() > 0 && (find_chars(ac.as_slice(), bc.as_slice(), 0).is_some() || find_chars(
        bc.as_slice(),
        ac.as_slice(),
        0,
    ).is_some())
}

/// Moves the first book whose author matches the filter to the front.
pub fn apply_author_filter(items: &mut Vec<BookItem>, author_filter: &Option<String>)
    ensures
        books_view(final(items)@) == author_filtered(
            books_view(old(items)@),
            opt_chars(*author_filter),
        ),
{
    let ghost start = books_view(items@);
    match author_filter {
        Some(f) => {
            if f.as_str().unicode_len() > 0 {
                let wanted = to_lowercase(trim_str(f.as_str()));
                let mut found: Option<usize> = None;
                let mut i: usize = 0;
                while i < items.len()
                    invariant_except_break
                        found is None,
                    invariant
                        i <= items@.len(),
                        books_view(items@) == start,
                        first_author_match(start, wanted@, 0) == first_author_match(
                            start,
                            wanted@,
                            i as int,
                        ),
                    ensures
                        books_view(items@) == start,
                        match found {
                            Some(j) => j < items@.len() && first_author_match(start, wanted@, 0)
                                == Some(j as int),
                            None => first_author_match(start, wanted@, 0) is None,
                        },
                    decreases items@.len() - i,
                {
                    let key = to_lowercase(trim_str(items[i].author.as_str()));
                    assert(start[i as int].author == items@[i as int].author@);
                    if key_matches(key.as_str(), wanted.as_str()) {
                        found = Some(i);
                        break;
                    }
                    i += 1;
                }
                match found {
                    Some(j) => {
                        let m = items.remove(j);
                        items.insert(0, m);
                        assert(books_view(items@) =~= move_to_front(start, j as int));
                    },
                    None => {},
                }
            }
        },
        None => {},
    }
}

/// The address of the primary API's search for the keyword and page.
pub open spec fn primary_url(p: SearchParamsView) -> Result<Seq<char>, Seq<char>> {
    match search_keyword(p) {
        Err(e) => Err(e),
        Ok(k) => Ok(
            "https://m.ypshuo.com/api/novel/search?keyword="@ + form_urlencode(encode_utf8(k))
                + "&searchType=1&page="@ + decimal(p.page as nat),
        ),
    }
}

/// The address of the primary API's search, or why there is none.
pub fn primary_search_url(params: &SearchParams) -> (r: Result<String, String>)
    ensures
        result_view(r) == primary_url(params@),
{
    let keyword = match params.keyword() {
        Ok(k) => k,
        Err(e) => return Err(e),
    };
    let mut url = String::from_str("https://m.ypshuo.com/api/novel/search?keyword=");
    let encoded = form_urlencode_str(keyword);
    url.append(encoded.as_str());
    url.append("&searchType=1&page=");
    let page = decimal_string(params.page as u64);
    url.append(page.as_str());
    Ok(url)
}

/// A title cut at the first `丨`, then at the first `|`, and trimmed.
pub open spec fn clean_title(name: Seq<char>) -> Seq<char> {
    trim(first_piece(first_piece(name, "丨"@), "|"@))
}

/// The book that one primary-API record describes.
pub open spec fn ypshuo_book(b: YpshuoBook) -> BookInfo {
    BookInfo {
        id: decimal(b.id as nat),
        title: clean_title(b.novel_name@),
        author: b.author_name@,
        cover_url: Some(secure_cover(b.novel_img@)),
        intro: Some(b.synopsis@),
        narrator: None,
        tags: comma_tags(
            match b.tags {
                Some(t) => t@,
                None => Seq::empty(),
            },
        ),
        chapter_count: None,
        duration: None,
    }
}

/// Turns one primary-API record into a book.
pub fn book_from_ypshuo(b: &YpshuoBook) -> (r: BookItem)
    ensures
        r@ == ypshuo_book(*b),
{
    let title = trim_str(first_piece_str(first_piece_str(b.novel_name.as_str(), "丨"), "|"));
    let tags = match &b.tags {
        Some(t) => comma_tags_exec(t.as_str()),
        None => comma_tags_exec(""),
    };
    proof {
        reveal_strlit("");
    }
    let id = decimal_string(b.id as u64);
    BookItem {
        id,
        title: String::from_str(title),
        author: String::from_str(b.author_name.as_str()),
        cover_url: Some(secure_cover_url(b.novel_img.as_str())),
        intro: Some(String::from_str(b.synopsis.as_str())),
        narrator: None,
        tags,
        chapter_count: None,
        duration: None,
    }
}

/// The books of the primary API's answer; none when it has no data.
pub open spec fn primary_books(resp: YpshuoResponse) -> Seq<BookInfo> {
    match resp.data {
        Some(d) => d.data@.map_values(|b: YpshuoBook| ypshuo_book(b)),
        None => Seq::empty(),
    }
}

/// A search result of a page of books, the author's book first.
pub open spec fn shaped_result(books: Seq<BookInfo>, p: SearchParamsView) -> SearchResultView {
    SearchResultView {
        items: author_filtered(books, p.author),
        total: 100,
        page: p.page,
        page_size: 20,
    }
}

/// The result of a primary-API answer: an error that names the code unless
/// the code is `00`, else its books with the author's book first.
pub open spec fn primary_result(resp: YpshuoResponse, p: SearchParamsView) -> Result<
    SearchResultView,
    Seq<char>,
> {
    if resp.code@ != "00"@ {
        Err("API Error: "@ + resp.code@)
    } else {
        Ok(shaped_result(primary_books(resp), p))
    }
}

/// Builds a search result: the author filter applied, 100 in total, 20 a page.
fn shape_result(items: Vec<BookItem>, params: &SearchParams) -> (r: SearchResult)
    ensures
        r@ == shaped_result(books_view(items@), params@),
{
    let mut items = items;
    apply_author_filter(&mut items, &params.author);
    SearchResult { items, total: 100, page: params.page, page_size: 20 }
}

/// The search result of the primary API's answer.
pub fn primary_search_result(resp: YpshuoResponse, params: &SearchParams) -> (r: Result<
    SearchResult,
    String,
>)
    ensures
        result_view(r) == primary_result(resp, params@),
{
    if !str_eq(resp.code.as_str(), "00") {
        let mut e = String::from_str("API Error: ");
        e.append(resp.code.as_str());
        return Err(e);
    }
    let ghost books = primary_books(resp);
    let list: Vec<YpshuoBook> = match resp.data {
        Some(d) => d.data,
        None => Vec::new(),
    };
    assert(books =~= list@.map_values(|b: YpshuoBook| ypshuo_book(b)));
    let mut items: Vec<BookItem> = Vec::new();
    let mut i: usize = 0;
    while i < list.len()
        invariant
            i <= list@.len(),
            books == list@.map_values(|b: YpshuoBook| ypshuo_book(b)),
            books_view(items@) == books.take(i as int),
        decreases list@.len() - i,
    {
        let item = book_from_ypshuo(&list[i]);
        assert(item@ == books[i as int]);
        let ghost before = items@;
        assert(before.len() == i) by {
            assert(books_view(before).len() == before.len());
        }
        items.push(item);
        assert forall|j: int| 0 <= j < i + 1 implies books_view(items@)[j] == books.take(i + 1)[j] by {
            if j < i {
                assert(books_view(before)[j] == books.take(i as int)[j]);
            }
        }
        assert(books_view(items@) =~= books.take(i + 1));
        i += 1;
    }
    assert(books.take(i as int) =~= books);
    Ok(shape_result(items, params))
}

/// The backup site's search address.
pub fn backup_search_url() -> (r: &'static str)
    ensures
        r@ == "https://www.youshu.me/modules/article/search.php"@,
{
    "https://www.youshu.me/modules/article/search.php"
}

/// The form body of the backup site's search for the keyword.
pub open spec fn backup_body(p: SearchParamsView) -> Result<Seq<char>, Seq<char>> {
    match search_keyword(p) {
        Err(e) => Err(e),
        Ok(k) => Ok(
            "searchtype=all&searchkey="@ + form_urlencode(encode_utf8(k)) + "&t_btnsearch="@,
        ),
    }
}

/// The form body of the backup site's search, or why there is none.
pub fn backup_search_body(params: &SearchParams) -> (r: Result<String, String>)
    ensures
        result_view(r) == backup_body(params@),
{
    let keyword = match params.keyword() {
        Ok(k) => k,
        Err(e) => return Err(e),
    };
    let mut body = String::from_str("searchtype=all&searchkey=");
    let encoded = form_urlencode_str(keyword);
    body.append(encoded.as_str());
    body.append("&t_btnsearch=");
    Ok(body)
}

/// The result of a backup-site page: its books with the author's book first,
/// or why there are none.
pub open spec fn backup_result(html: Seq<char>, p: SearchParamsView) -> Result<
    SearchResultView,
    Seq<char>,
> {
    match youshu_books(html) {
        Err(e) => Err(e),
        Ok(books) => Ok(shaped_result(books, p)),
    }
}

/// The search result of a backup-site page.
pub fn backup_search_result(html: &str, params: &SearchParams) -> (r: Result<SearchResult, String>)
    ensures
        result_view(r) == backup_result(html@, params@),
{
    match parse_youshu_html(html) {
        Ok(items) => Ok(shape_result(items, params)),
        Err(e) => Err(e),
    }
}

} // verus!
