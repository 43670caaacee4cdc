//! Extraction of book records from the HTML pages of the backup site.

use vstd::prelude::*;
use vstd::string::*;
use crate::text::{
    chars_of, find, find_chars, occurs_at, trim_str, comma_tags, comma_tags_exec, strings_view,
    lemma_trim_idempotent, after_last, after_last_start, contains, find_from, lemma_find_from, occurs_at_exec, replace_all,
    replace_str, starts_with, trim, trim_range,
};
use crate::model::{opt_str_chars, BookInfo, BookItem, opt_book, books_view};

verus! {

/// Where the piece of `t` that starts at `from` ends: at the next `p`, or at
/// the end of `t`.
pub open spec fn piece_end(t: Seq<char>, p: Seq<char>, from: int) -> int {
    match find_from(t, p, from) {
        Some(k) => k,
        None => t.len() as int,
    }
}

/// The trimmed text between the first `start` in `t` and the next `end`
/// after it. An empty `end` stands for the next `<`, or the end of `t`.
/// `None` when `start` does not occur, or a non-empty `end` does not follow.
pub open spec fn between(t: Seq<char>, start: Seq<char>, end: Seq<char>) -> Option<Seq<char>> {
    match find(t, start) {
        None => None,
        Some(i) => {
            let from = i + start.len();
            if end.len() == 0 {
                Some(trim(t.subrange(from, piece_end(t, seq!['<'], from))))
            } else {
                match find_from(t, end, from) {
                    None => None,
                    Some(k) => Some(trim(t.subrange(from, k))),
                }
            }
        },
    }
}

/// What `between` gives is already trimmed.
pub proof fn lemma_between_trimmed(t: Seq<char>, start: Seq<char>, end: Seq<char>)
    ensures
        between(t, start, end) matches Some(r) ==> trim(r) == r,
{
    match find(t, start) {
        None => {},
        Some(i) => {
            let from = i + start.len();
            if end.len() == 0 {
                lemma_trim_idempotent(t.subrange(from, piece_end(t, seq!['<'], from)));
            } else {
                match find_from(t, end, from) {
                    None => {},
                    Some(k) => lemma_trim_idempotent(t.subrange(from, k)),
                }
            }
        },
    }
}

/// The bounds in `t` of what `between` gives.
fn between_range(t: &[char], start: &[char], end: &[char]) -> (r: Option<(usize, usize)>)
    ensures
        match r {
            Some((a, b)) => a <= b <= t@.len() && between(t@, start@, end@) == Some(
                t@.subrange(a as int, b as int),
            ),
            None => between(t@, start@, end@) is None,
        },
{
    match find_chars(t, start, 0) {
        None => None,
        Some(i) => {
            proof {
                lemma_find_from(t@, start@, 0);
                assert(occurs_at(t@, start@, i as int));
                assert(t@.len() == t.len());
                assert(start@.len() == start.len());
            }
            let from = i + start.len();
            if end.len() == 0 {
                let lt: Vec<char> = vec!['<'];
                assert(lt@ =~= seq!['<']);
                let stop = match find_chars(t, lt.as_slice(), from) {
                    Some(k) => {
                        proof {
                            lemma_find_from(t@, lt@, from as int);
                        }
                        k
                    },
                    None => t.len(),
                };
                let (a, b) = trim_range(t, from, stop);
                Some((a, b))
            } else {
                match find_chars(t, end, from) {
                    None => None,
                    Some(k) => {
                        proof {
                            lemma_find_from(t@, end@, from as int);
                        }
                        let (a, b) = trim_range(t, from, k);
                        Some((a, b))
                    },
                }
            }
        },
    }
}

/// The trimmed text of `text` between the first `start` and the next `end`
/// (the next `<` when `end` is empty); `None` when a marker is missing.
pub fn extract_between<'a>(text: &'a str, start: &str, end: &str) -> (r: Option<&'a str>)
    ensures
        opt_str_chars(r) == between(text@, start@, end@),
{
    let t = chars_of(text);
    let s = chars_of(start);
    let e = chars_of(end);
    match between_range(t.as_slice(), s.as_slice(), e.as_slice()) {
        Some((a, b)) => Some(text.substring_char(a, b)),
        None => None,
    }
}

/// `s` with the entities `&lt;`, `&gt;`, `&amp;`, `&quot;`, `&#39;` and
/// `&nbsp;` decoded, one kind after the other, in that order.
pub open spec fn decode_entities(s: Seq<char>) -> Seq<char> {
    let s1 = replace_all(s, "&lt;"@, "<"@);
    let s2 = replace_all(s1, "&gt;"@, ">"@);
    let s3 = replace_all(s2, "&amp;"@, "&"@);
    let s4 = replace_all(s3, "&quot;"@, "\""@);
    let s5 = replace_all(s4, "&#39;"@, "'"@);
    replace_all(s5, "&nbsp;"@, " "@)
}

/// Decodes the HTML entities that the pages use.
pub fn decode_html_entities(text: &str) -> (r: String)
    ensures
        r@ == decode_entities(text@),
{
    proof {
        reveal_strlit("&lt;");
        reveal_strlit("&gt;");
        reveal_strlit("&amp;");
        reveal_strlit("&quot;");
        reveal_strlit("&#39;");
        reveal_strlit("&nbsp;");
    }
    let s1 = replace_str(text, "&lt;", "<");
    let s2 = replace_str(s1.as_str(), "&gt;", ">");
    let s3 = replace_str(s2.as_str(), "&amp;", "&");
    let s4 = replace_str(s3.as_str(), "&quot;", "\"");
    let s5 = replace_str(s4.as_str(), "&#39;", "'");
    replace_str(s5.as_str(), "&nbsp;", " ")
}

/// Whether `s` begins with `p`.
pub fn starts_with_str(s: &str, p: &str) -> (r: bool)
    ensures
        r == starts_with(s@, p@),
{
    let sc = chars_of(s);
    let pc = chars_of(p);
    occurs_at_exec(sc.as_slice(), pc.as_slice(), 0)
}

/// A cover address made absolute and secure: `https:` put before one that
/// starts with `//`, the leading `http://` of an insecure one made `https://`.
pub open spec fn secure_cover(u: Seq<char>) -> Seq<char> {
    if starts_with(u, "//"@) {
        "https:"@ + u
    } else if starts_with(u, "http://"@) {
        "https://"@ + u.skip("http://"@.len() as int)
    } else {
        u
    }
}

/// As `secure_cover`, but with every `http://` in an insecure address made
/// `https://`.
pub open spec fn secure_cover_everywhere(u: Seq<char>) -> Seq<char> {
    if starts_with(u, "//"@) {
        "https:"@ + u
    } else if starts_with(u, "http://"@) {
        replace_all(u, "http://"@, "https://"@)
    } else {
        u
    }
}

/// Makes a cover address absolute and secure (first `http://` only).
pub fn secure_cover_url(u: &str) -> (r: String)
    ensures
        r@ == secure_cover(u@),
{
    if starts_with_str(u, "//") {
        let mut r = String::from_str("https:");
        r.append(u);
        r
    } else if starts_with_str(u, "http://") {
        let uc = chars_of(u);
        let pc = chars_of("http://");
        let mut r = String::from_str("https://");
        r.append(u.substring_char(pc.len(), uc.len()));
        r
    } else {
        String::from_str(u)
    }
}

/// Makes a cover address absolute and secure (every `http://`).
pub fn secure_cover_url_everywhere(u: &str) -> (r: String)
    ensures
        r@ == secure_cover_everywhere(u@),
{
    if starts_with_str(u, "//") {
        let mut r = String::from_str("https:");
        r.append(u);
        r
    } else if starts_with_str(u, "http://") {
        proof {
            reveal_strlit("http://");
        }
        replace_str(u, "http://", "https://")
    } else {
        String::from_str(u)
    }
}

/// Whether `s` contains `p`.
pub fn contains_str(s: &str, p: &str) -> (r: bool)
    ensures
        r == contains(s@, p@),
{
    let sc = chars_of(s);
    let pc = chars_of(p);
    find_chars(sc.as_slice(), pc.as_slice(), 0).is_some()
}

/// The title of a search-result row: the highlighted title when there is
/// one, else the text of the title link.
pub open spec fn row_title(section: Seq<char>) -> Option<Seq<char>> {
    match between(section, "<span class=\"hot\">"@, "</span>"@) {
        Some(t) => Some(t),
        None => between(section, "\">"@, "</a>"@),
    }
}

/// The tags of a search-result row: the comma-separated items of its tag
/// value, trimmed, the empty ones left out; none when the row has no tag value.
pub open spec fn row_tags(h: Seq<char>) -> Seq<Seq<char>> {
    match between(h, "<span class=\"c_label\">标签：</span>"@, "</span>"@) {
        Some(section) => match between(section, "<span class=\"c_value\">"@, ""@) {
            Some(v) => comma_tags(v),
            None => Seq::empty(),
        },
        None => Seq::empty(),
    }
}

/// The book that one search-result row describes; `None` when its id, title
/// or author cannot be found.
pub open spec fn row_book(h: Seq<char>) -> Option<BookInfo> {
    match between(h, "/book/"@, "\""@) {
        None => None,
        Some(id) => match between(h, "<span class=\"c_subject\">"@, "</span>"@) {
            None => None,
            Some(section) => match row_title(section) {
                None => None,
                Some(title) => match between(h, "<span class=\"c_label\">作者：</span>"@, "</span>"@) {
                    None => None,
                    Some(author_section) => match between(
                        author_section,
                        "<span class=\"c_value\">"@,
                        ""@,
                    ) {
                        None => None,
                        Some(author) => Some(
                            BookInfo {
                                id,
                                title: decode_entities(title),
                                author: decode_entities(author),
                                cover_url: match between(h, "<img src=\""@, "\" style=\"width:80px"@) {
                                    Some(u) => Some(secure_cover_everywhere(u)),
                                    None => None,
                                },
                                intro: match between(h, "<div class=\"c_description\">"@, "</div>"@) {
                                    Some(d) => Some(decode_entities(d)),
                                    None => None,
                                },
                                narrator: None,
                                tags: row_tags(h),
                                chapter_count: None,
                                duration: None,
                            },
                        ),
                    },
                },
            },
        },
    }
}

/// The tags of a search-result row.
fn row_tags_exec(html: &str) -> (r: Vec<String>)
    ensures
        strings_view(r@) == row_tags(html@),
{
    match extract_between(html, "<span class=\"c_label\">标签：</span>", "</span>") {
        Some(section) => match extract_between(section, "<span class=\"c_value\">", "") {
            Some(v) => comma_tags_exec(v),
            None => {
                let r: Vec<String> = Vec::new();
                assert(strings_view(r@) =~= Seq::<Seq<char>>::empty());
                r
            },
        },
        None => {
            let r: Vec<String> = Vec::new();
            assert(strings_view(r@) =~= Seq::<Seq<char>>::empty());
            r
        },
    }
}

/// Parses one row of the backup site's search results.
pub fn parse_single_book(html: &str) -> (r: Option<BookItem>)
    ensures
        opt_book(r) == row_book(html@),
{
    let id = match extract_between(html, "/book/", "\"") {
        Some(x) => x,
        None => return None,
    };
    let title_section = match extract_between(html, "<span class=\"c_subject\">", "</span>") {
        Some(x) => x,
        None => return None,
    };
    let title = match extract_between(title_section, "<span class=\"hot\">", "</span>") {
        Some(t) => t,
        None => match extract_between(title_section, "\">", "</a>") {
            Some(t) => t,
            None => return None,
        },
    };
    let author_section = match extract_between(
        html,
        "<span class=\"c_label\">作者：</span>",
        "</span>",
    ) {
        Some(x) => x,
        None => return None,
    };
    let author = match extract_between(author_section, "<span class=\"c_value\">", "") {
        Some(x) => x,
        None => return None,
    };
    let cover_url = match extract_between(html, "<img src=\"", "\" style=\"width:80px") {
        Some(u) => Some(secure_cover_url_everywhere(u)),
        None => None,
    };
    let intro = match extract_between(html, "<div class=\"c_description\">", "</div>") {
        Some(d) => {
            let t = trim_str(d);
            proof {
                lemma_between_trimmed(html@, "<div class=\"c_description\">"@, "</div>"@);
            }
            Some(decode_html_entities(t))
        },
        None => None,
    };
    let tags = row_tags_exec(html);
    let book = BookItem {
        id: String::from_str(id),
        title: decode_html_entities(title),
        author: decode_html_entities(author),
        cover_url,
        intro,
        narrator: None,
        tags,
        chapter_count: None,
        duration: None,
    };
    Some(book)
}

/// The tag of one tag link: its trimmed link text, when there is one.
pub open spec fn link_tag(part: Seq<char>) -> Seq<Seq<char>> {
    match between(part, "\">"@, "</a>"@) {
        Some(t) => seq![t],
        None => Seq::empty(),
    }
}

/// The tags of the tag links in `s` whose pieces start at `i`, where a
/// piece runs up to the next `<a class="tag-link"`.
pub open spec fn link_tags_from(s: Seq<char>, i: int) -> Seq<Seq<char>>
    decreases s.len() + 1 - i,
{
    let d = "<a class=\"tag-link\""@;
    if i < 0 || i > s.len() || d.len() == 0 {
        Seq::empty()
    } else {
        match find_from(s, d, i) {
            None => link_tag(s.subrange(i, s.len() as int)),
            Some(k) => {
                proof {
                    lemma_find_from(s, d, i);
                }
                link_tag(s.subrange(i, k)) + link_tags_from(s, k + d.len())
            },
        }
    }
}

/// The tags of a tag section: one for each piece of
/// `section.split("<a class=\"tag-link\"")` after the first whose link text
/// can be found, in order; empty tags are kept.
pub open spec fn tag_links(section: Seq<char>) -> Seq<Seq<char>> {
    let d = "<a class=\"tag-link\""@;
    match find(section, d) {
        None => Seq::empty(),
        Some(k) => link_tags_from(section, k + d.len()),
    }
}

/// Pushes the tag of one tag link.
fn push_link_tag(out: &mut Vec<String>, part: &str)
    ensures
        strings_view(final(out)@) == strings_view(old(out)@) + link_tag(part@),
{
    match extract_between(part, "\">", "</a>") {
        Some(t) => {
            let tt = trim_str(t);
            proof {
                lemma_between_trimmed(part@, "\">"@, "</a>"@);
            }
            out.push(String::from_str(tt));
            assert(strings_view(out@) =~= strings_view(old(out)@) + seq![t@]);
        },
        None => {
            assert(strings_view(out@) =~= strings_view(old(out)@) + Seq::<Seq<char>>::empty());
        },
    }
}

/// The tags of the tag links in a tag section.
fn tag_links_exec(section: &str) -> (out: Vec<String>)
    ensures
        strings_view(out@) == tag_links(section@),
{
    let delim = "<a class=\"tag-link\"";
    proof {
        reveal_strlit("<a class=\"tag-link\"");
    }
    let sc = chars_of(section);
    let dc = chars_of(delim);
    let mut out: Vec<String> = Vec::new();
    let first = match find_chars(sc.as_slice(), dc.as_slice(), 0) {
        Some(k) => k,
        None => {
            assert(strings_view(out@) =~= Seq::<Seq<char>>::empty());
            return out;
        },
    };
    proof {
        lemma_find_from(sc@, dc@, 0);
        assert(occurs_at(sc@, dc@, first as int));
        assert(sc@.len() == sc.len());
    }
    let mut i = first + dc.len();
    assert(strings_view(out@) + link_tags_from(sc@, i as int) =~= link_tags_from(sc@, i as int));
    loop
        invariant
            i <= sc@.len(),
            sc@ == section@,
            dc@ == "<a class=\"tag-link\""@,
            dc@.len() > 0,
            tag_links(section@) == strings_view(out@) + link_tags_from(sc@, i as int),
        decreases sc@.len() - i,
    {
        match find_chars(sc.as_slice(), dc.as_slice(), i) {
            None => {
                let ghost before = strings_view(out@);
                let part = section.substring_char(i, sc.len());
                push_link_tag(&mut out, part);
                assert(link_tags_from(sc@, i as int) == link_tag(sc@.subrange(i as int, sc@.len() as int)));
                return out;
            },
            Some(k) => {
                proof {
                    lemma_find_from(sc@, dc@, i as int);
                    assert(occurs_at(sc@, dc@, k as int));
                    assert(sc@.len() == sc.len());
                }
                let ghost before = strings_view(out@);
                let part = section.substring_char(i, k);
                push_link_tag(&mut out, part);
                assert(before + (link_tag(sc@.subrange(i as int, k as int)) + link_tags_from(
                    sc@,
                    k + dc@.len(),
                )) =~= strings_view(out@) + link_tags_from(sc@, k + dc@.len()));
                i = k + dc.len();
            },
        }
    }
}

/// The tags of a book page: those of the tag links in its tag section; none
/// when it has no tag section.
pub open spec fn detail_tags(h: Seq<char>) -> Seq<Seq<char>> {
    match between(h, "<b>标签：</b>"@, "</div>"@) {
        Some(section) => tag_links(section),
        None => Seq::empty(),
    }
}

/// The introduction of a book page: the scrolled text inside its intro tab.
pub open spec fn detail_intro(h: Seq<char>) -> Option<Seq<char>> {
    match between(h, "<div class=\"tabvalue\" style=\"height:180px;\">"@, "</div>"@) {
        Some(tab) => match between(tab, "overflow-y:scroll;\">"@, ""@) {
            Some(t) => Some(decode_entities(t)),
            None => None,
        },
        None => None,
    }
}

/// The book that a book page describes; `None` when its id, title or
/// author link cannot be found. The author is the trimmed text after the
/// last `>` of the author link.
pub open spec fn detail_book(h: Seq<char>) -> Option<BookInfo> {
    match between(h, "jumpurl=%2Fbook%2F"@, "&"@) {
        None => None,
        Some(id) => match between(h, "font-size:20px;font-weight:bold;color:#f27622;\">"@, "</span>"@) {
            None => None,
            Some(title) => match between(
                h,
                "作者：<a href=\"/modules/article/authorarticle.php?author="@,
                "</a>"@,
            ) {
                None => None,
                Some(link) => Some(
                    BookInfo {
                        id,
                        title: decode_entities(title),
                        author: decode_entities(trim(after_last(link, '>'))),
                        cover_url: match between(
                            h,
                            "class=\"book-detail-img\" target=\"_blank\"><img src=\""@,
                            "\" style=\"border:1px"@,
                        ) {
                            Some(u) => Some(secure_cover(u)),
                            None => None,
                        },
                        intro: detail_intro(h),
                        narrator: None,
                        tags: detail_tags(h),
                        chapter_count: None,
                        duration: None,
                    },
                ),
            },
        },
    }
}

/// The trimmed text after the last `>` of `s`.
fn trimmed_after_last_gt(s: &str) -> (r: &str)
    ensures
        r@ == trim(after_last(s@, '>')),
{
    let sc = chars_of(s);
    let a = after_last_start(sc.as_slice(), 0, sc.len(), '>');
    let (x, y) = trim_range(sc.as_slice(), a, sc.len());
    assert(sc@.subrange(0, sc@.len() as int) =~= sc@);
    s.substring_char(x, y)
}

/// Parses a book page, which the backup site shows when a search has one hit.
pub fn parse_book_detail_page(html: &str) -> (r: Option<BookItem>)
    ensures
        opt_book(r) == detail_book(html@),
{
    let id = match extract_between(html, "jumpurl=%2Fbook%2F", "&") {
        Some(x) => x,
        None => return None,
    };
    let title = match extract_between(
        html,
        "font-size:20px;font-weight:bold;color:#f27622;\">",
        "</span>",
    ) {
        Some(x) => x,
        None => return None,
    };
    let author_link = match extract_between(
        html,
        "作者：<a href=\"/modules/article/authorarticle.php?author=",
        "</a>",
    ) {
        Some(x) => x,
        None => return None,
    };
    let author = trimmed_after_last_gt(author_link);
    let cover_url = match extract_between(
        html,
        "class=\"book-detail-img\" target=\"_blank\"><img src=\"",
        "\" style=\"border:1px",
    ) {
        Some(u) => Some(secure_cover_url(u)),
        None => None,
    };
    let intro = match extract_between(
        html,
        "<div class=\"tabvalue\" style=\"height:180px;\">",
        "</div>",
    ) {
        Some(tab) => match extract_between(tab, "overflow-y:scroll;\">", "") {
            Some(t) => {
                let tt = trim_str(t);
                proof {
                    lemma_between_trimmed(tab@, "overflow-y:scroll;\">"@, ""@);
                }
                Some(decode_html_entities(tt))
            },
            None => None,
        },
        None => None,
    };
    let tags = match extract_between(html, "<b>标签：</b>", "</div>") {
        Some(section) => tag_links_exec(section),
        None => {
            let v: Vec<String> = Vec::new();
            assert(strings_view(v@) =~= Seq::<Seq<char>>::empty());
            v
        },
    };
    let book = BookItem {
        id: String::from_str(id),
        title: decode_html_entities(title),
        author: decode_html_entities(author),
        cover_url,
        intro,
        narrator: None,
        tags,
        chapter_count: None,
        duration: None,
    };
    Some(book)
}

/// `[b]` for `Some(b)`, `[]` for `None`.
pub open spec fn book_seq(o: Option<BookInfo>) -> Seq<BookInfo> {
    match o {
        Some(b) => seq![b],
        None => Seq::empty(),
    }
}

/// The books of the result rows of `s` whose pieces start at `i`, where a
/// piece runs up to the next `<div class="c_row">`; rows that cannot be
/// parsed are left out.
pub open spec fn row_books_from(s: Seq<char>, i: int) -> Seq<BookInfo>
    decreases s.len() + 1 - i,
{
    let d = "<div class=\"c_row\">"@;
    if i < 0 || i > s.len() || d.len() == 0 {
        Seq::empty()
    } else {
        match find_from(s, d, i) {
            None => book_seq(row_book(s.subrange(i, s.len() as int))),
            Some(k) => {
                proof {
                    lemma_find_from(s, d, i);
                }
                book_seq(row_book(s.subrange(i, k))) + row_books_from(s, k + d.len())
            },
        }
    }
}

/// The books of a search-result page: one for each piece of
/// `html.split("<div class=\"c_row\">")` after the first that parses, in order.
pub open spec fn result_rows(html: Seq<char>) -> Seq<BookInfo> {
    let d = "<div class=\"c_row\">"@;
    match find(html, d) {
        None => Seq::empty(),
        Some(k) => row_books_from(html, k + d.len()),
    }
}

/// A book page (the site's answer when a search has one hit) rather than a
/// list of result rows.
pub open spec fn is_detail_page(html: Seq<char>) -> bool {
    contains(html, "<div class=\"divbox cf blockn\">"@) && !contains(html, "<div class=\"c_row\">"@)
}

/// The books of a backup-site page, or why there are none.
pub open spec fn youshu_books(html: Seq<char>) -> Result<Seq<BookInfo>, Seq<char>> {
    if is_detail_page(html) {
        match detail_book(html) {
            Some(b) => Ok(seq![b]),
            None => Err("Failed to parse book detail page"@),
        }
    } else if result_rows(html).len() == 0 {
        Err("No books found in HTML response"@)
    } else {
        Ok(result_rows(html))
    }
}

/// Parses the result rows of a search-result page.
fn parse_result_rows(html: &str) -> (out: Vec<BookItem>)
    ensures
        books_view(out@) == result_rows(html@),
{
    let delim = "<div class=\"c_row\">";
    proof {
        reveal_strlit("<div class=\"c_row\">");
    }
    let hc = chars_of(html);
    let dc = chars_of(delim);
    let mut out: Vec<BookItem> = Vec::new();
    let first = match find_chars(hc.as_slice(), dc.as_slice(), 0) {
        Some(k) => k,
        None => {
            assert(books_view(out@) =~= Seq::<BookInfo>::empty());
            return out;
        },
    };
    proof {
        lemma_find_from(hc@, dc@, 0);
        assert(occurs_at(hc@, dc@, first as int));
        assert(hc@.len() == hc.len());
    }
    let mut i = first + dc.len();
    assert(books_view(out@) + row_books_from(hc@, i as int) =~= row_books_from(hc@, i as int));
    loop
        invariant
            i <= hc@.len(),
            hc@ == html@,
            dc@ == "<div class=\"c_row\">"@,
            dc@.len() > 0,
            result_rows(html@) == books_view(out@) + row_books_from(hc@, i as int),
        decreases hc@.len() - i,
    {
        let (end, next) = match find_chars(hc.as_slice(), dc.as_slice(), i) {
            None => (hc.len(), None),
            Some(k) => {
                proof {
                    lemma_find_from(hc@, dc@, i as int);
                    assert(occurs_at(hc@, dc@, k as int));
                    assert(hc@.len() == hc.len());
                }
                (k, Some(k + dc.len()))
            },
        };
        let ghost before = books_view(out@);
        let part = html.substring_char(i, end);
        let parsed = parse_single_book(part);
        match parsed {
            Some(b) => {
                out.push(b);
                assert(books_view(out@) =~= before + seq![b@]);
            },
            None => {
                assert(books_view(out@) =~= before + Seq::<BookInfo>::empty());
            },
        }
        match next {
            None => {
                assert(row_books_from(hc@, i as int) == book_seq(row_book(hc@.subrange(i as int, hc@.len() as int))));
                return out;
            },
            Some(n) => {
                assert(before + (book_seq(row_book(hc@.subrange(i as int, end as int))) + row_books_from(
                    hc@,
                    n as int,
                )) =~= books_view(out@) + row_books_from(hc@, n as int));
                i = n;
            },
        }
    }
}

/// Parses a page of the backup site: a book page gives its one book, a
/// search-result page the books of its rows. An error when the book page
/// cannot be parsed or no row can.
pub fn parse_youshu_html(html: &str) -> (r: Result<Vec<BookItem>, String>)
    ensures
        match r {
            Ok(v) => youshu_books(html@) == Ok::<Seq<BookInfo>, Seq<char>>(books_view(v@)),
            Err(e) => youshu_books(html@) == Err::<Seq<BookInfo>, Seq<char>>(e@),
        },
{
    if contains_str(html, "<div class=\"divbox cf blockn\">") && !contains_str(
        html,
        "<div class=\"c_row\">",
    ) {
        match parse_book_detail_page(html) {
            Some(book) => {
                let mut v: Vec<BookItem> = Vec::new();
                v.push(book);
                assert(books_view(v@) =~= seq![book@]);
                return Ok(v);
            },
            None => return Err(String::from_str("Failed to parse book detail page")),
        }
    }
    let items = parse_result_rows(html);
    if items.len() == 0 {
        return Err(String::from_str("No books found in HTML response"));
    }
    Ok(items)
}

} // verus!
