use ypshuo_scraper::{
    decode_html_entities, extract_between, parse_book_detail_page, parse_single_book,
    parse_youshu_html,
};

const ROW_MAIN: &str = r#"
<div class="c_row"><a href="/book/293282"><img src="//img.youshu.me/cover/293282.jpg" style="width:80px;height:110px"/></a>
<span class="c_subject"><a href="/book/293282">诡秘之主</a></span>
<span class="c_label">作者：</span><span class="c_value">爱潜水的乌贼</span>
<span class="c_label">标签：</span><span class="c_value">克苏鲁, 蒸汽朋克,,西幻 </span>
<div class="c_description">  一个&quot;神秘&quot;的故事&amp;冒险  </div>
"#;

const ROW_PLAIN: &str = r#"
<span class="c_subject"><a href="/book/12">Tom &amp; Jerry</a></span>
<img src="http://a.com/x?u=http://b.com" style="width:80px"/>
<span class="c_label">作者：</span><span class="c_value">  Hanna  </span>
"#;

const DETAIL: &str = r#"<html><div class="divbox cf blockn">
<a href="/login.php?jumpurl=%2Fbook%2F20486&amp;x=1">登录</a>
<span style="font-size:20px;font-weight:bold;color:#f27622;">雪中悍刀行</span>
<span>&nbsp;&nbsp;作者：<a href="/modules/article/authorarticle.php?author=%E7%83%BD" target="_blank"> 烽火戏诸侯 </a></span>
<a href="/book/20486" class="book-detail-img" target="_blank"><img src="http://img.youshu.me/20486.jpg?r=http://x" style="border:1px solid"/></a>
<div class="tabvalue" style="height:180px;"><div style="overflow-y:scroll;"> 江湖&lt;庙堂&gt; <br/>more</div></div>
<div><b>标签：</b><a class="tag-link" href="/t/1"> 武侠 </a><a class="tag-link" href="/t/2"></a><a class="tag-link" href="/t/3">权谋</a></div>
</html>"#;

#[test]
fn extract_between_finds_trimmed_text() {
    assert_eq!(extract_between("a [ x y ] b", "[", "]"), Some("x y"));
}

#[test]
fn extract_between_missing_start_or_end() {
    assert_eq!(extract_between("abc", "[", "]"), None);
    assert_eq!(extract_between("a [ b", "[", "]"), None);
}

#[test]
fn extract_between_empty_end_stops_at_tag() {
    assert_eq!(extract_between("<b>x</b> v1 <i>", "</b>", ""), Some("v1"));
    assert_eq!(extract_between("key: value  ", "key:", ""), Some("value"));
}

#[test]
fn extract_between_uses_first_start_and_next_end() {
    assert_eq!(extract_between("(a)(b)", "(", ")"), Some("a"));
    assert_eq!(extract_between("x]([y]", "[", "]"), Some("y"));
}

#[test]
fn extract_between_unicode_markers() {
    assert_eq!(extract_between("作者：张三；", "作者：", "；"), Some("张三"));
    assert_eq!(extract_between("\u{3000}[\u{3000}全角\u{3000}]", "[", "]"), Some("全角"));
}

#[test]
fn decode_html_entities_all_kinds() {
    assert_eq!(
        decode_html_entities("&lt;a&gt; &amp; &quot;q&quot; &#39;s&#39;&nbsp;x"),
        "<a> & \"q\" 's' x"
    );
}

#[test]
fn decode_html_entities_order_decodes_once() {
    assert_eq!(decode_html_entities("&amp;lt;"), "&lt;");
    assert_eq!(decode_html_entities("&amp;amp;"), "&amp;");
}

#[test]
fn decode_html_entities_plain_text_unchanged() {
    assert_eq!(decode_html_entities("plain 文本"), "plain 文本");
}

#[test]
fn parse_single_book_full_row() {
    let b = parse_single_book(ROW_MAIN).unwrap();
    assert_eq!(b.id, "293282");
    assert_eq!(b.title, "诡秘之主");
    assert_eq!(b.author, "爱潜水的乌贼");
    assert_eq!(b.cover_url.as_deref(), Some("https://img.youshu.me/cover/293282.jpg"));
    assert_eq!(b.intro.as_deref(), Some("一个\"神秘\"的故事&冒险"));
    assert_eq!(b.tags, vec!["克苏鲁", "蒸汽朋克", "西幻"]);
    assert_eq!(b.narrator, None);
    assert_eq!(b.chapter_count, None);
    assert_eq!(b.duration, None);
}

#[test]
fn parse_single_book_link_title_and_every_http_replaced() {
    let b = parse_single_book(ROW_PLAIN).unwrap();
    assert_eq!(b.id, "12");
    assert_eq!(b.title, "Tom & Jerry");
    assert_eq!(b.author, "Hanna");
    assert_eq!(b.cover_url.as_deref(), Some("https://a.com/x?u=https://b.com"));
    assert_eq!(b.intro, None);
    assert!(b.tags.is_empty());
}

#[test]
fn parse_single_book_hot_span_ends_title_section() {
    // The title section ends at the first `</span>`, which closes the
    // highlight span, so neither title form is found inside it.
    let row = r#"<a href="/book/3"><span class="c_subject"><a href="/book/3"><span class="hot">X</span></a></span>
<span class="c_label">作者：</span><span class="c_value">Y</span>"#;
    assert!(parse_single_book(row).is_none());
}

#[test]
fn parse_single_book_without_author_is_none() {
    assert!(parse_single_book(r#"<a href="/book/1"><span class="c_subject"><a href="/book/1">T</a></span>"#).is_none());
}

#[test]
fn parse_book_detail_page_reads_all_fields() {
    let b = parse_book_detail_page(DETAIL).unwrap();
    assert_eq!(b.id, "20486");
    assert_eq!(b.title, "雪中悍刀行");
    assert_eq!(b.author, "烽火戏诸侯");
    assert_eq!(b.cover_url.as_deref(), Some("https://img.youshu.me/20486.jpg?r=http://x"));
    assert_eq!(b.intro.as_deref(), Some("江湖<庙堂>"));
    assert_eq!(b.tags, vec!["武侠", "", "权谋"]);
}

#[test]
fn parse_youshu_html_detail_page() {
    let v = parse_youshu_html(DETAIL).unwrap();
    assert_eq!(v.len(), 1);
    assert_eq!(v[0].id, "20486");
}

#[test]
fn parse_youshu_html_bad_detail_page() {
    let html = r#"<div class="divbox cf blockn">nothing</div>"#;
    assert_eq!(parse_youshu_html(html), Err("Failed to parse book detail page".to_string()));
}

#[test]
fn parse_youshu_html_rows_skip_unparsable() {
    let html = format!("<body>head /book/999\"{}<div class=\"c_row\">broken{}", ROW_MAIN, ROW_PLAIN);
    let v = parse_youshu_html(&html).unwrap();
    assert_eq!(v.len(), 2);
    assert_eq!(v[0].id, "293282");
    assert_eq!(v[1].id, "12");
}

#[test]
fn parse_youshu_html_no_books() {
    assert_eq!(parse_youshu_html("<html>empty</html>"), Err("No books found in HTML response".to_string()));
    assert_eq!(
        parse_youshu_html("<div class=\"c_row\">nothing here"),
        Err("No books found in HTML response".to_string())
    );
}
