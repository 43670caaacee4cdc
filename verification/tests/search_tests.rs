use ypshuo_scraper::{
    apply_author_filter, backup_search_body, backup_search_result, backup_search_url,
    book_from_ypshuo, default_page, primary_search_result, primary_search_url, BookItem,
    SearchParams, YpshuoBook, YpshuoResponse, YpshuoSearchData,
};

fn params(title: Option<&str>, query: Option<&str>, author: Option<&str>, page: u32) -> SearchParams {
    SearchParams {
        query: query.map(|s| s.to_string()),
        title: title.map(|s| s.to_string()),
        page,
        author: author.map(|s| s.to_string()),
        narrator: None,
    }
}

fn book(id: &str, author: &str) -> BookItem {
    BookItem {
        id: id.to_string(),
        title: format!("t{}", id),
        author: author.to_string(),
        cover_url: None,
        intro: None,
        narrator: None,
        tags: vec![],
        chapter_count: None,
        duration: None,
    }
}

fn ids(v: &[BookItem]) -> Vec<&str> {
    v.iter().map(|b| b.id.as_str()).collect()
}

#[test]
fn keyword_prefers_trimmed_title() {
    let p = params(Some("  三体 "), Some("query"), None, 1);
    assert_eq!(p.keyword(), Ok("三体"));
}

#[test]
fn keyword_falls_back_to_query() {
    let p = params(Some("   "), Some(" q "), None, 1);
    assert_eq!(p.keyword(), Ok("q"));
    let p = params(None, Some("q2"), None, 1);
    assert_eq!(p.keyword(), Ok("q2"));
}

#[test]
fn keyword_missing() {
    let p = params(None, Some(" \t"), None, 1);
    assert_eq!(p.keyword(), Err("Missing required search field: title".to_string()));
}

#[test]
fn default_page_is_one() {
    assert_eq!(default_page(), 1);
}

#[test]
fn author_filter_moves_first_match_to_front() {
    let mut v = vec![book("1", "甲"), book("2", "乙"), book("3", "乙丙")];
    apply_author_filter(&mut v, &Some("乙".to_string()));
    assert_eq!(ids(&v), vec!["2", "1", "3"]);
}

#[test]
fn author_filter_is_case_insensitive_and_two_way() {
    let mut v = vec![book("1", "Someone"), book("2", "  JOHN  ")];
    apply_author_filter(&mut v, &Some(" John Smith ".to_string()));
    assert_eq!(ids(&v), vec!["2", "1"]);
}

#[test]
fn author_filter_without_match_or_filter_keeps_order() {
    let mut v = vec![book("1", "a"), book("2", "b")];
    apply_author_filter(&mut v, &Some("zzz".to_string()));
    assert_eq!(ids(&v), vec!["1", "2"]);
    apply_author_filter(&mut v, &Some(String::new()));
    assert_eq!(ids(&v), vec!["1", "2"]);
    apply_author_filter(&mut v, &None);
    assert_eq!(ids(&v), vec!["1", "2"]);
}

#[test]
fn author_filter_blank_filter_picks_first_named_author() {
    let mut v = vec![book("1", "  "), book("2", "b"), book("3", "c")];
    apply_author_filter(&mut v, &Some("   ".to_string()));
    assert_eq!(ids(&v), vec!["2", "1", "3"]);
}

#[test]
fn author_filter_twice_same_as_once() {
    let mut v = vec![book("1", "x"), book("2", "ab"), book("3", "a")];
    let f = Some("a".to_string());
    apply_author_filter(&mut v, &f);
    let once = ids(&v).iter().map(|s| s.to_string()).collect::<Vec<_>>();
    apply_author_filter(&mut v, &f);
    assert_eq!(ids(&v), once);
    assert_eq!(once, vec!["2", "1", "3"]);
}

#[test]
fn primary_url_encodes_keyword_and_page() {
    let p = params(Some(" 三体 a&b*-._~ "), None, None, 12);
    assert_eq!(
        primary_search_url(&p),
        Ok("https://m.ypshuo.com/api/novel/search?keyword=%E4%B8%89%E4%BD%93+a%26b*-._%7E&searchType=1&page=12".to_string())
    );
}

#[test]
fn primary_url_without_keyword() {
    let p = params(None, None, None, 1);
    assert_eq!(primary_search_url(&p), Err("Missing required search field: title".to_string()));
}

#[test]
fn backup_body_and_url() {
    let p = params(Some("斗 破"), None, None, 1);
    assert_eq!(
        backup_search_body(&p),
        Ok("searchtype=all&searchkey=%E6%96%97+%E7%A0%B4&t_btnsearch=".to_string())
    );
    assert_eq!(backup_search_url(), "https://www.youshu.me/modules/article/search.php");
}

fn ybook(id: u32, name: &str, tags: Option<&str>, author: &str, img: &str) -> YpshuoBook {
    YpshuoBook {
        id,
        novel_name: name.to_string(),
        tags: tags.map(|s| s.to_string()),
        author_name: author.to_string(),
        novel_img: img.to_string(),
        synopsis: "简介".to_string(),
    }
}

#[test]
fn ypshuo_book_is_cleaned() {
    let b = book_from_ypshuo(&ybook(4093, " 斗破苍穹丨天蚕土豆|完本 ", Some("玄幻, 热血,, "), "天蚕土豆", "http://i.com/a?b=http://c"));
    assert_eq!(b.id, "4093");
    assert_eq!(b.title, "斗破苍穹");
    assert_eq!(b.author, "天蚕土豆");
    assert_eq!(b.cover_url.as_deref(), Some("https://i.com/a?b=http://c"));
    assert_eq!(b.intro.as_deref(), Some("简介"));
    assert_eq!(b.tags, vec!["玄幻", "热血"]);
    let b = book_from_ypshuo(&ybook(0, "A|B", None, "x", "//i.com/p.jpg"));
    assert_eq!(b.id, "0");
    assert_eq!(b.title, "A");
    assert_eq!(b.cover_url.as_deref(), Some("https://i.com/p.jpg"));
    assert!(b.tags.is_empty());
    let b = book_from_ypshuo(&ybook(7, "N", None, "x", "ftp://p"));
    assert_eq!(b.cover_url.as_deref(), Some("ftp://p"));
}

#[test]
fn primary_result_rejects_error_code() {
    let resp = YpshuoResponse { code: "01".to_string(), data: None };
    assert_eq!(primary_search_result(resp, &params(Some("a"), None, None, 1)), Err("API Error: 01".to_string()));
}

#[test]
fn primary_result_without_data_is_empty() {
    let resp = YpshuoResponse { code: "00".to_string(), data: None };
    let r = primary_search_result(resp, &params(Some("a"), None, None, 3)).unwrap();
    assert!(r.items.is_empty());
    assert_eq!((r.total, r.page, r.page_size), (100, 3, 20));
}

#[test]
fn primary_result_filters_by_author() {
    let resp = YpshuoResponse {
        code: "00".to_string(),
        data: Some(YpshuoSearchData {
            data: vec![ybook(1, "A", None, "甲", "x"), ybook(2, "B", None, "乙", "y")],
        }),
    };
    let r = primary_search_result(resp, &params(Some("a"), None, Some("乙"), 2)).unwrap();
    assert_eq!(ids(&r.items), vec!["2", "1"]);
    assert_eq!((r.total, r.page, r.page_size), (100, 2, 20));
}

#[test]
fn backup_result_from_page() {
    let html = r#"<div class="c_row"><span class="c_subject"><a href="/book/5">五</a></span><span class="c_label">作者：</span><span class="c_value">某</span>"#;
    let r = backup_search_result(html, &params(Some("五"), None, None, 4)).unwrap();
    assert_eq!(ids(&r.items), vec!["5"]);
    assert_eq!((r.total, r.page, r.page_size), (100, 4, 20));
    assert_eq!(
        backup_search_result("<p></p>", &params(Some("五"), None, None, 4)).map(|r| r.items.len()),
        Err("No books found in HTML response".to_string())
    );
}
