//! Properties of the library as a whole, stated over its spec functions.

use vstd::prelude::*;
use crate::text::{
    find, find_from, lemma_find_from, lemma_trim_start, lemma_trim_end, trim_start, trim_end,
    contains, comma_tags, tags_from, keep_nonempty, is_white_space, first_piece, after_last,
};
use crate::text::{replace_all, occurs_at, trim, starts_with};
use crate::encode::{form_unreserved, form_encode_byte, form_urlencode, hex_upper};
use crate::html::{
    decode_entities, secure_cover, secure_cover_everywhere, youshu_books, row_books_from, book_seq,
    row_book, result_rows, is_detail_page, between, piece_end,
};
use crate::model::{BookInfo, SearchParamsView, YpshuoBook, YpshuoResponse};
use crate::encode::lowercase_of;
use crate::search::{
    author_filtered, author_matches, first_author_match, move_to_front, nonblank, search_keyword,
    primary_result, ypshuo_book,
};
use crate::flow::{both_failed, first_step, step_after_backup, step_after_primary, SearchStepView};

verus! {

broadcast use vstd::seq_lib::group_to_multiset_ensures;

/// Moving an item to the front keeps the multiset of items.
proof fn lemma_move_to_front_multiset<A>(s: Seq<A>, i: int)
    requires
        0 <= i < s.len(),
    ensures
        move_to_front(s, i).to_multiset() == s.to_multiset(),
        move_to_front(s, i).len() == s.len(),
{
    broadcast use vstd::multiset::group_multiset_axioms;
    broadcast use vstd::seq_lib::to_multiset_remove, vstd::seq_lib::to_multiset_insert;

    assert(move_to_front(s, i) =~= s.remove(i).insert(0, s[i]));
    assert(s.to_multiset().count(s[i]) > 0) by {
        vstd::seq_lib::to_multiset_contains(s, s[i]);
    }
    assert(s.to_multiset().remove(s[i]).insert(s[i]) =~= s.to_multiset());
}

/// The first match at or after `i`, when there is one, matches and lies in range.
proof fn lemma_first_author_match(items: Seq<BookInfo>, wanted: Seq<char>, i: int)
    ensures
        first_author_match(items, wanted, i) matches Some(j) ==> i <= j < items.len()
            && author_matches(items[j].author, wanted) && forall|m: int|
            i <= m < j ==> !author_matches(#[trigger] items[m].author, wanted),
    decreases items.len() - i,
{
    if i < 0 || i >= items.len() {
    } else if author_matches(items[i].author, wanted) {
    } else {
        lemma_first_author_match(items, wanted, i + 1);
    }
}

/// The author preference only reorders the books: the same books, as many
/// of them, each as often as before.
pub proof fn law_author_filter_permutes(items: Seq<BookInfo>, filter: Option<Seq<char>>)
    ensures
        author_filtered(items, filter).len() == items.len(),
        author_filtered(items, filter).to_multiset() == items.to_multiset(),
{
    match filter {
        Some(f) => if f.len() > 0 {
            let w = crate::encode::lowercase_of(trim(f));
            lemma_first_author_match(items, w, 0);
            match first_author_match(items, w, 0) {
                Some(i) => lemma_move_to_front_multiset(items, i),
                None => {},
            }
        },
        None => {},
    }
}

/// Applying the author preference twice is applying it once.
pub proof fn law_author_filter_idempotent(items: Seq<BookInfo>, filter: Option<Seq<char>>)
    ensures
        author_filtered(author_filtered(items, filter), filter) == author_filtered(items, filter),
{
    match filter {
        Some(f) => if f.len() > 0 {
            let w = crate::encode::lowercase_of(trim(f));
            lemma_first_author_match(items, w, 0);
            match first_author_match(items, w, 0) {
                Some(i) => {
                    let r = move_to_front(items, i);
                    assert(r[0] == items[i]);
                    assert(first_author_match(r, w, 0) == Some(0int));
                    assert(move_to_front(r, 0) =~= r);
                },
                None => {},
            }
        },
        None => {},
    }
}

/// When some author matches a non-empty filter, the first book afterwards
/// is one whose author matches.
pub proof fn law_author_filter_front_matches(items: Seq<BookInfo>, f: Seq<char>)
    requires
        f.len() > 0,
        exists|j: int| 0 <= j < items.len() && author_matches(
            #[trigger] items[j].author,
            crate::encode::lowercase_of(trim(f)),
        ),
    ensures
        author_matches(
            author_filtered(items, Some(f))[0].author,
            crate::encode::lowercase_of(trim(f)),
        ),
{
    let w = crate::encode::lowercase_of(trim(f));
    let j = choose|j: int| 0 <= j < items.len() && author_matches(#[trigger] items[j].author, w);
    lemma_first_author_match_exists(items, w, 0, j);
    lemma_first_author_match(items, w, 0);
}

/// A match at or after `i` means `first_author_match` finds one.
proof fn lemma_first_author_match_exists(items: Seq<BookInfo>, wanted: Seq<char>, i: int, j: int)
    requires
        0 <= i <= j < items.len(),
        author_matches(items[j].author, wanted),
    ensures
        first_author_match(items, wanted, i) is Some,
    decreases j - i,
{
    if !author_matches(items[i].author, wanted) {
        lemma_first_author_match_exists(items, wanted, i + 1, j);
    }
}

/// A blank or missing title leaves the query, trimmed, as the keyword when
/// it is not blank.
pub proof fn law_query_fallback(p: SearchParamsView)
    requires
        nonblank(p.title) is None,
        nonblank(p.query) is Some,
    ensures
        search_keyword(p) == Ok::<Seq<char>, Seq<char>>(trim(p.query.unwrap())),
{
}

/// A non-blank title is the keyword, whatever the query holds.
pub proof fn law_title_first(p: SearchParamsView)
    requires
        nonblank(p.title) is Some,
    ensures
        search_keyword(p) == Ok::<Seq<char>, Seq<char>>(trim(p.title.unwrap())),
{
}

/// The characters that can stand in a form-urlencoded value: letters,
/// digits, `*`, `-`, `.`, `_`, `+` and `%`; none of `&`, `=`, `#`, `?` or a space.
pub open spec fn form_safe_char(c: char) -> bool {
    let n = c as u32;
    ||| n == 0x2a
    ||| n == 0x2b
    ||| n == 0x25
    ||| n == 0x2d
    ||| n == 0x2e
    ||| (0x30 <= n && n <= 0x39)
    ||| (0x41 <= n && n <= 0x5a)
    ||| n == 0x5f
    ||| (0x61 <= n && n <= 0x7a)
}

proof fn lemma_hex_upper_safe(d: nat)
    requires
        d < 16,
    ensures
        form_safe_char(hex_upper(d)),
{
}

/// Form-urlencoding leaves only safe characters, so an encoded keyword
/// cannot end or split a query parameter.
pub proof fn law_form_urlencode_safe(bytes: Seq<u8>)
    ensures
        forall|k: int| 0 <= k < form_urlencode(bytes).len() ==> form_safe_char(
            #[trigger] form_urlencode(bytes)[k],
        ),
    decreases bytes.len(),
{
    if bytes.len() > 0 {
        law_form_urlencode_safe(bytes.drop_first());
        let b = bytes[0];
        let e = form_encode_byte(b);
        if !form_unreserved(b) && b != 0x20 {
            lemma_hex_upper_safe((b / 16) as nat);
            lemma_hex_upper_safe((b % 16) as nat);
        }
        assert forall|k: int| 0 <= k < e.len() implies form_safe_char(#[trigger] e[k]) by {}
        let whole = form_urlencode(bytes);
        assert forall|k: int| 0 <= k < whole.len() implies form_safe_char(#[trigger] whole[k]) by {
            if k >= e.len() {
                assert(whole[k] == form_urlencode(bytes.drop_first())[k - e.len()]);
            }
        }
    }
}

/// Replacing a pattern whose first character does not occur changes nothing.
proof fn lemma_replace_absent(s: Seq<char>, p: Seq<char>, r: Seq<char>)
    requires
        p.len() > 0,
        forall|i: int| 0 <= i < s.len() ==> s[i] != p[0],
    ensures
        replace_all(s, p, r) == s,
    decreases s.len(),
{
    if s.len() > 0 {
        if occurs_at(s, p, 0) {
            assert(s.subrange(0, p.len() as int)[0] == s[0]);
        }
        lemma_replace_absent(s.drop_first(), p, r);
        assert(seq![s[0]] + s.drop_first() =~= s);
    }
}

/// Text without `&` has no entity to decode and comes back unchanged.
pub proof fn law_decode_without_ampersand(s: Seq<char>)
    requires
        forall|i: int| 0 <= i < s.len() ==> s[i] != '&',
    ensures
        decode_entities(s) == s,
{
    reveal_strlit("&lt;");
    reveal_strlit("&gt;");
    reveal_strlit("&amp;");
    reveal_strlit("&quot;");
    reveal_strlit("&#39;");
    reveal_strlit("&nbsp;");
    lemma_replace_absent(s, "&lt;"@, "<"@);
    lemma_replace_absent(s, "&gt;"@, ">"@);
    lemma_replace_absent(s, "&amp;"@, "&"@);
    lemma_replace_absent(s, "&quot;"@, "\""@);
    lemma_replace_absent(s, "&#39;"@, "'"@);
    lemma_replace_absent(s, "&nbsp;"@, " "@);
}

/// A cover address that starts with `//` or `http://` comes out starting
/// with `https://`.
pub proof fn law_secure_cover_https(u: Seq<char>)
    requires
        starts_with(u, "//"@) || starts_with(u, "http://"@),
    ensures
        starts_with(secure_cover(u), "https://"@),
{
    reveal_strlit("//");
    reveal_strlit("http://");
    reveal_strlit("https:");
    reveal_strlit("https://");
    if starts_with(u, "//"@) {
        let w = "https:"@ + u;
        assert(u.subrange(0, 2) == "//"@);
        assert(u[0] == u.subrange(0, 2)[0]);
        assert(u[1] == u.subrange(0, 2)[1]);
        assert(w[6] == u[0]);
        assert(w[7] == u[1]);
        assert(w.subrange(0, 8) =~= "https://"@);
    } else {
        let rest = u.skip(7);
        assert(("https://"@ + rest).subrange(0, 8) =~= "https://"@);
    }
}

/// A successful parse of a backup-site page has at least one book.
pub proof fn law_backup_page_never_empty(html: Seq<char>)
    ensures
        youshu_books(html) matches Ok(books) ==> books.len() > 0,
{
}

/// The backup site is asked only when the primary API failed: when the
/// primary answer gives a result, the search finishes with it.
pub proof fn law_primary_success_finishes(p: SearchParamsView, resp: YpshuoResponse)
    requires
        primary_result(resp, p) is Ok,
    ensures
        step_after_primary(p, Ok(resp)) == SearchStepView::Finished(primary_result(resp, p)),
{
}

/// A search that ends in error after the backup site names both errors,
/// the primary one first.
pub proof fn law_backup_failure_names_both(
    p: SearchParamsView,
    primary_error: Seq<char>,
    answer: Result<Vec<u8>, String>,
)
    ensures
        step_after_backup(p, primary_error, answer) matches SearchStepView::Finished(Err(e))
            ==> exists|b: Seq<char>| e == both_failed(primary_error, b),
{
    match step_after_backup(p, primary_error, answer) {
        SearchStepView::Finished(Err(e)) => {
            let b = match answer {
                Err(x) => x@,
                Ok(body) => match crate::search::backup_result(
                    crate::encode::utf8_lossy(body@),
                    p,
                ) {
                    Err(x) => x,
                    Ok(_) => Seq::empty(),
                },
            };
            assert(e == both_failed(primary_error, b));
        },
        _ => {},
    }
}

/// Every finished search result reports 100 books in total, pages of 20,
/// and the page that was asked for.
pub proof fn law_result_shape(
    p: SearchParamsView,
    primary: Result<YpshuoResponse, String>,
    primary_error: Seq<char>,
    backup: Result<Vec<u8>, String>,
)
    ensures
        step_after_primary(p, primary) matches SearchStepView::Finished(Ok(r)) ==> r.total == 100
            && r.page_size == 20 && r.page == p.page,
        step_after_backup(p, primary_error, backup) matches SearchStepView::Finished(Ok(r))
            ==> r.total == 100 && r.page_size == 20 && r.page == p.page,
{
}

/// No book of the sequence names a narrator.
pub open spec fn no_narrator(items: Seq<BookInfo>) -> bool {
    forall|k: int| 0 <= k < items.len() ==> (#[trigger] items[k]).narrator is None
}

proof fn lemma_filter_keeps_no_narrator(items: Seq<BookInfo>, filter: Option<Seq<char>>)
    requires
        no_narrator(items),
    ensures
        no_narrator(author_filtered(items, filter)),
{
    match filter {
        Some(f) => if f.len() > 0 {
            let w = crate::encode::lowercase_of(trim(f));
            lemma_first_author_match(items, w, 0);
            match first_author_match(items, w, 0) {
                Some(i) => {
                    let r = move_to_front(items, i);
                    assert forall|k: int| 0 <= k < r.len() implies (#[trigger] r[k]).narrator is None by {
                        if k == 0 {
                            assert(r[k] == items[i]);
                        } else if k - 1 < i {
                            assert(r[k] == items[k - 1]);
                        } else {
                            assert(r[k] == items[k]);
                        }
                    }
                },
                None => {},
            }
        },
        None => {},
    }
}

proof fn lemma_rows_no_narrator(s: Seq<char>, i: int)
    ensures
        no_narrator(row_books_from(s, i)),
    decreases s.len() + 1 - i,
{
    let d = "<div class=\"c_row\">"@;
    if i < 0 || i > s.len() || d.len() == 0 {
    } else {
        match find_from(s, d, i) {
            None => {},
            Some(k) => {
                lemma_find_from(s, d, i);
                lemma_rows_no_narrator(s, k + d.len());
                let head = book_seq(row_book(s.subrange(i, k)));
                let tail = row_books_from(s, k + d.len());
                assert forall|m: int| 0 <= m < (head + tail).len() implies (#[trigger] (head
                    + tail)[m]).narrator is None by {
                    if m >= head.len() {
                        assert((head + tail)[m] == tail[m - head.len()]);
                    }
                }
            },
        }
    }
}

/// Neither site reports narrators: no book of a finished search names one.
pub proof fn law_no_narrator(
    p: SearchParamsView,
    primary: Result<YpshuoResponse, String>,
    primary_error: Seq<char>,
    backup: Result<Vec<u8>, String>,
)
    ensures
        step_after_primary(p, primary) matches SearchStepView::Finished(Ok(r)) ==> no_narrator(
            r.items,
        ),
        step_after_backup(p, primary_error, backup) matches SearchStepView::Finished(Ok(r))
            ==> no_narrator(r.items),
{
    match primary {
        Ok(resp) => {
            let books = crate::search::primary_books(resp);
            assert(no_narrator(books));
            lemma_filter_keeps_no_narrator(books, p.author);
        },
        Err(_) => {},
    }
    match backup {
        Ok(body) => {
            let html = crate::encode::utf8_lossy(body@);
            let d = "<div class=\"c_row\">"@;
            match find(html, d) {
                Some(k) => lemma_rows_no_narrator(html, k + d.len()),
                None => {},
            }
            match youshu_books(html) {
                Ok(books) => lemma_filter_keeps_no_narrator(books, p.author),
                Err(_) => {},
            }
        },
        Err(_) => {},
    }
}

/// A cover address that starts with neither `//` nor `http://` (an `https://`
/// one, say) is reported as it is, on a book page and on a result row.
pub proof fn law_other_covers_unchanged(u: Seq<char>)
    requires
        !starts_with(u, "//"@),
        !starts_with(u, "http://"@),
    ensures
        secure_cover(u) == u,
        secure_cover_everywhere(u) == u,
{
}

/// On a book page, an `http://` cover keeps everything after its scheme:
/// only the leading `http://` becomes `https://`.
pub proof fn law_http_cover_first_only(u: Seq<char>)
    requires
        starts_with(u, "http://"@),
    ensures
        secure_cover(u).len() == u.len() + 1,
        secure_cover(u).take(8) == "https://"@,
        secure_cover(u).skip(8) == u.skip(7),
{
    reveal_strlit("//");
    reveal_strlit("http://");
    reveal_strlit("https://");
    if starts_with(u, "//"@) {
        assert(u.subrange(0, 2)[1] == u.subrange(0, 7)[1]);
    }
    let r = "https://"@ + u.skip(7);
    assert(r.take(8) =~= "https://"@);
    assert(r.skip(8) =~= u.skip(7));
}

/// On a result row, an `http://` cover has exactly the text `http://`
/// replaced by `https://`, everywhere.
pub proof fn law_http_cover_everywhere(u: Seq<char>)
    requires
        starts_with(u, "http://"@),
    ensures
        secure_cover_everywhere(u) == replace_all(u, "http://"@, "https://"@),
{
    reveal_strlit("//");
    reveal_strlit("http://");
    if starts_with(u, "//"@) {
        assert(u.subrange(0, 2)[1] == u.subrange(0, 7)[1]);
    }
}

/// `contains` means an occurrence somewhere.
proof fn lemma_contains_iff(s: Seq<char>, p: Seq<char>)
    ensures
        crate::text::contains(s, p) <==> exists|i: int| occurs_at(s, p, i),
{
    lemma_find_from(s, p, 0);
    if let Some(k) = find(s, p) {
        assert(occurs_at(s, p, k));
    }
}

/// An author matches the filter exactly when its trimmed, lowercased name is
/// not empty and contains the trimmed, lowercased filter anywhere in it, or
/// lies anywhere inside it.
pub proof fn law_author_match_is_containment(author: Seq<char>, wanted: Seq<char>)
    ensures
        author_matches(author, wanted) <==> {
            let k = lowercase_of(trim(author));
            &&& k.len() > 0
            &&& (exists|i: int| occurs_at(k, wanted, i)) || (exists|i: int| occurs_at(wanted, k, i))
        },
{
    let k = lowercase_of(trim(author));
    lemma_contains_iff(k, wanted);
    lemma_contains_iff(wanted, k);
}

/// With a non-empty filter, the book moved to the front is the first whose
/// author matches; the others stay in their order.
pub proof fn law_author_filter_moves_first_match(items: Seq<BookInfo>, f: Seq<char>, j: int)
    requires
        f.len() > 0,
        0 <= j < items.len(),
        author_matches(items[j].author, lowercase_of(trim(f))),
        forall|i: int| 0 <= i < j ==> !author_matches(#[trigger] items[i].author, lowercase_of(trim(f))),
    ensures
        author_filtered(items, Some(f)) == seq![items[j]] + items.subrange(0, j) + items.subrange(
            j + 1,
            items.len() as int,
        ),
{
    let w = lowercase_of(trim(f));
    lemma_first_author_match_exists(items, w, 0, j);
    lemma_first_author_match(items, w, 0);
    let k = first_author_match(items, w, 0)->0;
    if k < j {
        assert(!author_matches(items[k].author, w));
    }
    assert(k == j);
    assert(author_filtered(items, Some(f)) =~= seq![items[j]] + items.subrange(0, j) + items.subrange(
        j + 1,
        items.len() as int,
    ));
}

/// Without an author filter, the primary answer's records come out converted
/// one for one, in the API's order.
pub proof fn law_primary_keeps_api_order(resp: YpshuoResponse, p: SearchParamsView)
    requires
        resp.code@ == "00"@,
        p.author is None,
        resp.data is Some,
    ensures
        primary_result(resp, p) matches Ok(r) && r.items.len() == resp.data->0.data@.len() && (
        forall|k: int|
            0 <= k < r.items.len() ==> #[trigger] r.items[k] == ypshuo_book(
                resp.data->0.data@[k],
            )),
{
}

/// Whatever the author filter, the primary result holds one converted book
/// for each record of the answer, each as often as the record occurs.
pub proof fn law_primary_converts_every_record(resp: YpshuoResponse, p: SearchParamsView)
    requires
        resp.code@ == "00"@,
        resp.data is Some,
    ensures
        primary_result(resp, p) matches Ok(r) && r.items.to_multiset() == resp.data->0.data@.map_values(
            |b: YpshuoBook| ypshuo_book(b),
        ).to_multiset(),
{
    let books = crate::search::primary_books(resp);
    assert(books =~= resp.data->0.data@.map_values(|b: YpshuoBook| ypshuo_book(b)));
    law_author_filter_permutes(books, p.author);
}

/// A search-result page (not a book page) with parsable rows gives all of its
/// rows' books, nothing dropped.
pub proof fn law_result_page_gives_all_rows(html: Seq<char>)
    requires
        !is_detail_page(html),
        result_rows(html).len() > 0,
    ensures
        youshu_books(html) == Ok::<Seq<BookInfo>, Seq<char>>(result_rows(html)),
{
}

/// `find_from` finds an occurrence when there is none before it.
proof fn lemma_find_from_is(s: Seq<char>, p: Seq<char>, i: int, k: int)
    requires
        0 <= i <= k,
        occurs_at(s, p, k),
        forall|j: int| i <= j < k ==> !occurs_at(s, p, j),
    ensures
        find_from(s, p, i) == Some(k),
{
    lemma_find_from(s, p, i);
}

/// `find_from` finds nothing when nothing occurs from `i` on.
proof fn lemma_find_from_none(s: Seq<char>, p: Seq<char>, i: int)
    requires
        0 <= i,
        forall|j: int| i <= j ==> !occurs_at(s, p, j),
    ensures
        find_from(s, p, i) is None,
{
    lemma_find_from(s, p, i);
}

/// The delimiter of result rows occurs in `h + delimiter + row` only where it
/// occurs in `h`, and at the joint.
pub open spec fn row_added_cleanly(h: Seq<char>, row: Seq<char>) -> bool {
    let d = "<div class=\"c_row\">"@;
    forall|j: int| #[trigger] occurs_at(h + d + row, d, j) ==> j == h.len() || occurs_at(h, d, j)
}

proof fn lemma_occurs_in_prefix(h: Seq<char>, t: Seq<char>, d: Seq<char>, j: int)
    requires
        occurs_at(h, d, j),
    ensures
        occurs_at(h + t, d, j),
{
    assert((h + t).subrange(j, j + d.len()) =~= h.subrange(j, j + d.len()));
}

proof fn lemma_rows_from_append(h: Seq<char>, row: Seq<char>, i: int)
    requires
        row_added_cleanly(h, row),
        0 <= i <= h.len(),
    ensures
        row_books_from(h + "<div class=\"c_row\">"@ + row, i) == row_books_from(h, i) + book_seq(
            row_book(row),
        ),
    decreases h.len() + 1 - i,
{
    let d = "<div class=\"c_row\">"@;
    reveal_strlit("<div class=\"c_row\">");
    let s = h + d + row;
    let n = h.len() as int;
    assert(d.len() > 0);
    lemma_find_from(h, d, i);
    match find_from(h, d, i) {
        None => {
            assert(s.subrange(n, n + d.len()) =~= d);
            assert forall|j: int| i <= j < n implies !occurs_at(s, d, j) by {
                if occurs_at(s, d, j) {
                    assert(occurs_at(h, d, j));
                }
            }
            lemma_find_from_is(s, d, i, n);
            let m = n + d.len();
            assert forall|j: int| m <= j implies !occurs_at(s, d, j) by {
                if occurs_at(s, d, j) {
                    assert(occurs_at(h, d, j));
                }
            }
            lemma_find_from_none(s, d, m);
            assert(s.subrange(i, n) =~= h.subrange(i, n));
            assert(s.subrange(m, s.len() as int) =~= row);
            assert(row_books_from(h, i) == book_seq(row_book(h.subrange(i, n))));
            assert(row_books_from(s, m) == book_seq(row_book(row)));
            assert(row_books_from(s, i) == book_seq(row_book(h.subrange(i, n))) + row_books_from(s, m));
        },
        Some(k) => {
            lemma_occurs_in_prefix(h, d + row, d, k);
            assert(h + (d + row) =~= s);
            assert forall|j: int| i <= j < k implies !occurs_at(s, d, j) by {
                if occurs_at(s, d, j) {
                    assert(occurs_at(h, d, j));
                }
            }
            lemma_find_from_is(s, d, i, k);
            lemma_rows_from_append(h, row, k + d.len());
            assert(s.subrange(i, k) =~= h.subrange(i, k));
            let a = book_seq(row_book(h.subrange(i, k)));
            assert(row_books_from(h, i) == a + row_books_from(h, k + d.len()));
            assert(row_books_from(s, i) == a + row_books_from(s, k + d.len()));
            assert(a + (row_books_from(h, k + d.len()) + book_seq(row_book(row))) =~= (a
                + row_books_from(h, k + d.len())) + book_seq(row_book(row)));
        },
    }
}

/// Appending a row (a delimiter and a text that brings no delimiter of its
/// own) to a page appends that row's book, when it parses, to the page's
/// books: the rows are all kept, one book per parsable row, in order.
pub proof fn law_rows_append(h: Seq<char>, row: Seq<char>)
    requires
        row_added_cleanly(h, row),
    ensures
        result_rows(h + "<div class=\"c_row\">"@ + row) == result_rows(h) + book_seq(row_book(row)),
{
    let d = "<div class=\"c_row\">"@;
    reveal_strlit("<div class=\"c_row\">");
    let s = h + d + row;
    let n = h.len() as int;
    lemma_find_from(h, d, 0);
    match find(h, d) {
        Some(k) => {
            lemma_occurs_in_prefix(h, d + row, d, k);
            assert(h + (d + row) =~= s);
            assert forall|j: int| 0 <= j < k implies !occurs_at(s, d, j) by {
                if occurs_at(s, d, j) {
                    assert(occurs_at(h, d, j));
                }
            }
            lemma_find_from_is(s, d, 0, k);
            lemma_rows_from_append(h, row, k + d.len());
            assert(result_rows(s) == row_books_from(s, k + d.len()));
            assert(result_rows(h) == row_books_from(h, k + d.len()));
        },
        None => {
            assert(s.subrange(n, n + d.len()) =~= d);
            assert forall|j: int| 0 <= j < n implies !occurs_at(s, d, j) by {
                if occurs_at(s, d, j) {
                    assert(occurs_at(h, d, j));
                }
            }
            lemma_find_from_is(s, d, 0, n);
            let m = n + d.len();
            assert forall|j: int| m <= j implies !occurs_at(s, d, j) by {
                if occurs_at(s, d, j) {
                    assert(occurs_at(h, d, j));
                }
            }
            lemma_find_from_none(s, d, m);
            assert(s.subrange(m, s.len() as int) =~= row);
            assert(result_rows(s) == row_books_from(s, m));
            assert(row_books_from(s, m) == book_seq(row_book(row)));
            assert(Seq::<BookInfo>::empty() + book_seq(row_book(row)) =~= book_seq(row_book(row)));
        },
    }
}

/// The trimmed text of `x` is a part of it.
proof fn lemma_trim_is_part(x: Seq<char>)
    ensures
        exists|p: int, q: int| 0 <= p <= q <= x.len() && #[trigger] x.subrange(p, q) == trim(x),
{
    lemma_trim_start(x);
    let u = trim_start(x);
    lemma_trim_end(u);
    let p = x.len() - u.len();
    let q = p + trim_end(u).len();
    assert(x.subrange(p, q) =~= trim(x));
}

/// An occurrence inside a part of `t` is an occurrence in `t`.
proof fn lemma_occurs_in_part(t: Seq<char>, a: int, b: int, p: Seq<char>, j: int)
    requires
        0 <= a <= b <= t.len(),
        occurs_at(t.subrange(a, b), p, j),
    ensures
        occurs_at(t, p, a + j),
{
    assert(t.subrange(a, b).subrange(j, j + p.len()) =~= t.subrange(a + j, a + j + p.len()));
}

/// What `extract_between` finds: nothing when the start marker is missing,
/// always something when it is present and the end marker is empty; and what
/// it finds is a part of the text after the first start marker that holds no
/// whole end marker (no `<` when the end marker is empty).
pub proof fn law_between_located(t: Seq<char>, start: Seq<char>, end: Seq<char>)
    ensures
        !contains(t, start) ==> between(t, start, end) is None,
        contains(t, start) && end.len() == 0 ==> between(t, start, end) is Some,
        between(t, start, end) matches Some(r) ==> exists|i: int, a: int, b: int|
            #![trigger occurs_at(t, start, i), t.subrange(a, b)]
            occurs_at(t, start, i) && (forall|j: int| 0 <= j < i ==> !occurs_at(t, start, j))
                && i + start.len() <= a <= b <= t.len() && r == t.subrange(a, b),
        end.len() > 0 ==> (between(t, start, end) matches Some(r) ==> !contains(r, end)),
        end.len() == 0 ==> (between(t, start, end) matches Some(r) ==> forall|k: int|
            0 <= k < r.len() ==> r[k] != '<'),
{
    lemma_find_from(t, start, 0);
    if let Some(i) = find(t, start) {
        let from = i + start.len();
        let c = if end.len() == 0 {
            lemma_find_from(t, seq!['<'], from);
            piece_end(t, seq!['<'], from)
        } else {
            lemma_find_from(t, end, from);
            match find_from(t, end, from) {
                Some(k) => k,
                None => from,
            }
        };
        if let Some(r) = between(t, start, end) {
            let x = t.subrange(from, c);
            lemma_trim_is_part(x);
            let (p, q) = choose|p: int, q: int| 0 <= p <= q <= x.len() && #[trigger] x.subrange(p, q)
                == trim(x);
            assert(x.subrange(p, q) =~= t.subrange(from + p, from + q));
            assert(occurs_at(t, start, i));
            assert(r == t.subrange(from + p, from + q));
            if end.len() > 0 {
                lemma_contains_iff(r, end);
                if contains(r, end) {
                    let j = choose|j: int| occurs_at(r, end, j);
                    lemma_occurs_in_part(t, from + p, from + q, end, j);
                }
            } else {
                assert forall|k: int| 0 <= k < r.len() implies r[k] != '<' by {
                    if r[k] == '<' {
                        assert(t[from + p + k] == r[k]);
                        assert(t.subrange(from + p + k, from + p + k + 1) =~= seq!['<']);
                        assert(occurs_at(t, seq!['<'], from + p + k));
                    }
                }
            }
        }
    } else {
        lemma_contains_iff(t, start);
    }
}

proof fn lemma_tags_from_clean(s: Seq<char>, i: int)
    ensures
        forall|k: int| 0 <= k < tags_from(s, i).len() ==> {
            let t = #[trigger] tags_from(s, i)[k];
            &&& t.len() > 0
            &&& trim(t) == t
            &&& forall|m: int| 0 <= m < t.len() ==> t[m] != ','
        },
    decreases s.len() + 1 - i,
{
    if i < 0 || i > s.len() {
    } else {
        lemma_find_from(s, seq![','], i);
        let c = match find_from(s, seq![','], i) {
            Some(k) => k,
            None => s.len() as int,
        };
        let x = s.subrange(i, c);
        crate::text::lemma_trim_idempotent(x);
        lemma_trim_is_part(x);
        let (p, q) = choose|p: int, q: int| 0 <= p <= q <= x.len() && #[trigger] x.subrange(p, q)
            == trim(x);
        let head = keep_nonempty(trim(x));
        assert forall|m: int| 0 <= m < trim(x).len() implies trim(x)[m] != ',' by {
            assert(trim(x)[m] == s[i + p + m]);
            if s[i + p + m] == ',' {
                assert(s.subrange(i + p + m, i + p + m + 1) =~= seq![',']);
                assert(occurs_at(s, seq![','], i + p + m));
            }
        }
        match find_from(s, seq![','], i) {
            None => {},
            Some(k) => {
                lemma_tags_from_clean(s, k + 1);
                let tail = tags_from(s, k + 1);
                assert forall|n: int| 0 <= n < (head + tail).len() implies {
                    let t = #[trigger] (head + tail)[n];
                    &&& t.len() > 0
                    &&& trim(t) == t
                    &&& forall|m: int| 0 <= m < t.len() ==> t[m] != ','
                } by {
                    if n >= head.len() {
                        assert((head + tail)[n] == tail[n - head.len()]);
                    }
                }
            },
        }
    }
}

/// Every tag split from a comma-separated list is non-empty, trimmed, and
/// holds no comma.
pub proof fn law_comma_tags_clean(s: Seq<char>)
    ensures
        forall|k: int| 0 <= k < comma_tags(s).len() ==> {
            let t = #[trigger] comma_tags(s)[k];
            &&& t.len() > 0
            &&& trim(t) == t
            &&& forall|m: int| 0 <= m < t.len() ==> t[m] != ','
        },
{
    lemma_tags_from_clean(s, 0);
}

/// The primary answer gives a result exactly when its code is `00`; any
/// other code is named in the error.
pub proof fn law_primary_code(resp: YpshuoResponse, p: SearchParamsView)
    ensures
        primary_result(resp, p) is Ok <==> resp.code@ == "00"@,
        primary_result(resp, p) matches Err(e) ==> e == "API Error: "@ + resp.code@,
{
}

/// A book page gives exactly one book.
pub proof fn law_detail_page_single_book(html: Seq<char>)
    requires
        is_detail_page(html),
    ensures
        youshu_books(html) matches Ok(books) ==> books.len() == 1,
{
}

/// Without a filter, with an empty one, or when no author matches, the books
/// keep their order.
pub proof fn law_author_filter_no_match_keeps_order(items: Seq<BookInfo>, filter: Option<Seq<char>>)
    requires
        filter matches Some(f) ==> f.len() > 0 ==> forall|i: int|
            0 <= i < items.len() ==> !author_matches(
                #[trigger] items[i].author,
                lowercase_of(trim(f)),
            ),
    ensures
        author_filtered(items, filter) == items,
{
    if let Some(f) = filter {
        if f.len() > 0 {
            let w = lowercase_of(trim(f));
            lemma_first_author_match(items, w, 0);
        }
    }
}

/// A search asks the primary API first exactly when it has a keyword; with
/// none, it fails at once, naming the missing keyword for both sites.
pub proof fn law_first_step(p: SearchParamsView)
    ensures
        first_step(p) is FetchPrimary <==> search_keyword(p) is Ok,
        search_keyword(p) matches Err(e) ==> first_step(p) == SearchStepView::Finished(
            Err(both_failed(e, e)),
        ),
{
}

/// `s` holds no `c`.
pub open spec fn free_of(s: Seq<char>, c: char) -> bool {
    forall|i: int| 0 <= i < s.len() ==> s[i] != c
}

proof fn lemma_replace_unmatched(x: Seq<char>, p: Seq<char>, r: Seq<char>)
    requires
        p.len() > 0,
        forall|j: int| !occurs_at(x, p, j),
    ensures
        replace_all(x, p, r) == x,
    decreases x.len(),
{
    if x.len() > 0 {
        assert(!occurs_at(x, p, 0));
        assert forall|j: int| !occurs_at(x.drop_first(), p, j) by {
            if occurs_at(x.drop_first(), p, j) {
                assert(x.subrange(j + 1, j + 1 + p.len()) =~= x.drop_first().subrange(j, j + p.len()));
                assert(occurs_at(x, p, j + 1));
            }
        }
        lemma_replace_unmatched(x.drop_first(), p, r);
        assert(seq![x[0]] + x.drop_first() =~= x);
    }
}

proof fn lemma_replace_after_plain(s: Seq<char>, x: Seq<char>, p: Seq<char>, r: Seq<char>)
    requires
        p.len() > 0,
        free_of(s, p[0]),
    ensures
        replace_all(s + x, p, r) == s + replace_all(x, p, r),
    decreases s.len(),
{
    if s.len() > 0 {
        let w = s + x;
        if occurs_at(w, p, 0) {
            assert(w.subrange(0, p.len() as int)[0] == w[0]);
        }
        assert(w.drop_first() =~= s.drop_first() + x);
        lemma_replace_after_plain(s.drop_first(), x, p, r);
        assert(seq![s[0]] + (s.drop_first() + replace_all(x, p, r)) =~= s + replace_all(x, p, r));
    } else {
        assert(s + x =~= x);
        assert(s + replace_all(x, p, r) =~= replace_all(x, p, r));
    }
}

/// One decoding pass over `s + q + t` for the entity `q` itself.
proof fn lemma_pass_same(s: Seq<char>, q: Seq<char>, t: Seq<char>, r: Seq<char>)
    requires
        q.len() > 0,
        q[0] == '&',
        free_of(s, '&'),
        free_of(t, '&'),
    ensures
        replace_all(s + q + t, q, r) == s + r + t,
{
    assert(s + q + t =~= s + (q + t));
    lemma_replace_after_plain(s, q + t, q, r);
    assert((q + t).subrange(0, q.len() as int) =~= q);
    assert((q + t).skip(q.len() as int) =~= t);
    lemma_replace_absent(t, q, r);
    assert(s + (r + t) =~= s + r + t);
}

/// One decoding pass over `s + q + t` for an entity `p` that differs from
/// the entity `q` in its second character.
proof fn lemma_pass_other(s: Seq<char>, q: Seq<char>, t: Seq<char>, p: Seq<char>, r: Seq<char>)
    requires
        q.len() >= 2,
        q[0] == '&',
        forall|k: int| 1 <= k < q.len() ==> q[k] != '&',
        p.len() >= 2,
        p[0] == '&',
        p[1] != q[1],
        free_of(s, '&'),
        free_of(t, '&'),
    ensures
        replace_all(s + q + t, p, r) == s + q + t,
{
    let w = s + q + t;
    assert forall|j: int| !occurs_at(w, p, j) by {
        if occurs_at(w, p, j) {
            assert(w[j] == w.subrange(j, j + p.len())[0]);
            assert(w[j + 1] == w.subrange(j, j + p.len())[1]);
            if j < s.len() {
                assert(w[j] == s[j]);
            } else if j >= s.len() + q.len() {
                assert(w[j] == t[j - s.len() - q.len()]);
            } else if j > s.len() {
                assert(w[j] == q[j - s.len()]);
            } else {
                assert(w[j + 1] == q[1]);
            }
        }
    }
    lemma_replace_unmatched(w, p, r);
}

/// No entity ending in `;` occurs in `s + "&" + t` when `t` holds no `;`.
proof fn lemma_pass_after_ampersand(s: Seq<char>, t: Seq<char>, p: Seq<char>, r: Seq<char>)
    requires
        p.len() >= 2,
        p[0] == '&',
        p[p.len() - 1] == ';',
        free_of(s, '&'),
        free_of(t, '&'),
        free_of(t, ';'),
    ensures
        replace_all(s + seq!['&'] + t, p, r) == s + seq!['&'] + t,
{
    let w = s + seq!['&'] + t;
    assert forall|j: int| !occurs_at(w, p, j) by {
        if occurs_at(w, p, j) {
            assert(w[j] == w.subrange(j, j + p.len())[0]);
            let e = j + p.len() - 1;
            assert(w[e] == w.subrange(j, j + p.len())[p.len() - 1]);
            if j < s.len() {
                assert(w[j] == s[j]);
            } else if j > s.len() {
                assert(w[j] == t[j - s.len() - 1]);
            } else {
                assert(w[e] == t[e - s.len() - 1]);
            }
        }
    }
    lemma_replace_unmatched(w, p, r);
}

proof fn lemma_free_join(s: Seq<char>, c: Seq<char>, t: Seq<char>, x: char)
    requires
        free_of(s, x),
        free_of(c, x),
        free_of(t, x),
    ensures
        free_of(s + c + t, x),
{
    let w = s + c + t;
    assert forall|i: int| 0 <= i < w.len() implies w[i] != x by {
        if i < s.len() {
            assert(w[i] == s[i]);
        } else if i < s.len() + c.len() {
            assert(w[i] == c[i - s.len()]);
        } else {
            assert(w[i] == t[i - s.len() - c.len()]);
        }
    }
}

/// Each entity, standing between plain text (no `&`, no `;`), is decoded to
/// its character and nothing else changes.
pub proof fn law_decode_each_entity(s: Seq<char>, t: Seq<char>)
    requires
        free_of(s, '&'),
        free_of(t, '&'),
        free_of(s, ';'),
        free_of(t, ';'),
    ensures
        decode_entities(s + "&lt;"@ + t) == s + "<"@ + t,
        decode_entities(s + "&gt;"@ + t) == s + ">"@ + t,
        decode_entities(s + "&amp;"@ + t) == s + "&"@ + t,
        decode_entities(s + "&quot;"@ + t) == s + "\""@ + t,
        decode_entities(s + "&#39;"@ + t) == s + "'"@ + t,
        decode_entities(s + "&nbsp;"@ + t) == s + " "@ + t,
{
    reveal_strlit("&lt;");
    reveal_strlit("&gt;");
    reveal_strlit("&amp;");
    reveal_strlit("&quot;");
    reveal_strlit("&#39;");
    reveal_strlit("&nbsp;");
    reveal_strlit("<");
    reveal_strlit(">");
    reveal_strlit("&");
    reveal_strlit("\"");
    reveal_strlit("'");
    reveal_strlit(" ");
    let lt = "&lt;"@;
    let gt = "&gt;"@;
    let amp = "&amp;"@;
    let quot = "&quot;"@;
    let apos = "&#39;"@;
    let nbsp = "&nbsp;"@;
    // &lt;
    assert(decode_entities(s + lt + t) == s + "<"@ + t) by {
        lemma_pass_same(s, lt, t, "<"@);
        lemma_free_join(s, "<"@, t, '&');
        let w = s + "<"@ + t;
        lemma_replace_absent(w, gt, ">"@);
        lemma_replace_absent(w, amp, "&"@);
        lemma_replace_absent(w, quot, "\""@);
        lemma_replace_absent(w, apos, "'"@);
        lemma_replace_absent(w, nbsp, " "@);
    }
    // &gt;
    assert(decode_entities(s + gt + t) == s + ">"@ + t) by {
        lemma_pass_other(s, gt, t, lt, "<"@);
        lemma_pass_same(s, gt, t, ">"@);
        lemma_free_join(s, ">"@, t, '&');
        let w = s + ">"@ + t;
        lemma_replace_absent(w, amp, "&"@);
        lemma_replace_absent(w, quot, "\""@);
        lemma_replace_absent(w, apos, "'"@);
        lemma_replace_absent(w, nbsp, " "@);
    }
    // &amp;
    assert(decode_entities(s + amp + t) == s + "&"@ + t) by {
        lemma_pass_other(s, amp, t, lt, "<"@);
        lemma_pass_other(s, amp, t, gt, ">"@);
        lemma_pass_same(s, amp, t, "&"@);
        assert("&"@ =~= seq!['&']);
        lemma_pass_after_ampersand(s, t, quot, "\""@);
        lemma_pass_after_ampersand(s, t, apos, "'"@);
        lemma_pass_after_ampersand(s, t, nbsp, " "@);
    }
    // &quot;
    assert(decode_entities(s + quot + t) == s + "\""@ + t) by {
        lemma_pass_other(s, quot, t, lt, "<"@);
        lemma_pass_other(s, quot, t, gt, ">"@);
        lemma_pass_other(s, quot, t, amp, "&"@);
        lemma_pass_same(s, quot, t, "\""@);
        lemma_free_join(s, "\""@, t, '&');
        let w = s + "\""@ + t;
        lemma_replace_absent(w, apos, "'"@);
        lemma_replace_absent(w, nbsp, " "@);
    }
    // &#39;
    assert(decode_entities(s + apos + t) == s + "'"@ + t) by {
        lemma_pass_other(s, apos, t, lt, "<"@);
        lemma_pass_other(s, apos, t, gt, ">"@);
        lemma_pass_other(s, apos, t, amp, "&"@);
        lemma_pass_other(s, apos, t, quot, "\""@);
        lemma_pass_same(s, apos, t, "'"@);
        lemma_free_join(s, "'"@, t, '&');
        let w = s + "'"@ + t;
        lemma_replace_absent(w, nbsp, " "@);
    }
    // &nbsp;
    assert(decode_entities(s + nbsp + t) == s + " "@ + t) by {
        lemma_pass_other(s, nbsp, t, lt, "<"@);
        lemma_pass_other(s, nbsp, t, gt, ">"@);
        lemma_pass_other(s, nbsp, t, amp, "&"@);
        lemma_pass_other(s, nbsp, t, quot, "\""@);
        lemma_pass_other(s, nbsp, t, apos, "'"@);
        lemma_pass_same(s, nbsp, t, " "@);
    }
}

/// Form-urlencoding works byte by byte: the encoding of two byte sequences
/// one after the other is the two encodings one after the other.
pub proof fn law_form_urlencode_concat(a: Seq<u8>, b: Seq<u8>)
    ensures
        form_urlencode(a + b) == form_urlencode(a) + form_urlencode(b),
    decreases a.len(),
{
    if a.len() == 0 {
        assert(a + b =~= b);
        assert(Seq::<char>::empty() + form_urlencode(b) =~= form_urlencode(b));
    } else {
        assert((a + b).drop_first() =~= a.drop_first() + b);
        law_form_urlencode_concat(a.drop_first(), b);
        assert((a + b)[0] == a[0]);
        let e = form_encode_byte(a[0]);
        assert(e + (form_urlencode(a.drop_first()) + form_urlencode(b)) =~= (e + form_urlencode(
            a.drop_first(),
        )) + form_urlencode(b));
    }
}

/// An upper-case hexadecimal digit.
pub open spec fn is_upper_hex(c: char) -> bool {
    ('0' <= c && c <= '9') || ('A' <= c && c <= 'F')
}

/// The value of an upper-case hexadecimal digit.
pub open spec fn upper_hex_value(c: char) -> int {
    if c <= '9' {
        c as int - 48
    } else {
        c as int - 55
    }
}

/// How one byte is form-urlencoded: an ASCII letter or digit, `*`, `-`, `.`
/// or `_` stands for itself, a space becomes `+`, and any other byte becomes
/// `%` and two upper-case hexadecimal digits whose value is the byte.
pub proof fn law_form_urlencode_byte(b: u8)
    ensures
        form_unreserved(b) ==> form_urlencode(seq![b]) == seq![b as char],
        b == 0x20 ==> form_urlencode(seq![b]) == seq!['+'],
        !form_unreserved(b) && b != 0x20 ==> {
            let r = form_urlencode(seq![b]);
            &&& r.len() == 3
            &&& r[0] == '%'
            &&& is_upper_hex(r[1])
            &&& is_upper_hex(r[2])
            &&& 16 * upper_hex_value(r[1]) + upper_hex_value(r[2]) == b as int
        },
{
    let one = seq![b];
    assert(one.drop_first() =~= Seq::<u8>::empty());
    assert(form_urlencode(Seq::<u8>::empty()) == Seq::<char>::empty());
    assert(one[0] == b);
    assert(form_urlencode(one) == form_encode_byte(b) + form_urlencode(one.drop_first()));
    assert(form_urlencode(one) =~= form_encode_byte(b) + Seq::<char>::empty());
    assert(form_encode_byte(b) + Seq::<char>::empty() =~= form_encode_byte(b));
    if !form_unreserved(b) && b != 0x20 {
        let hi = (b / 16) as nat;
        let lo = (b % 16) as nat;
        assert(16 * hi + lo == b as int);
        assert(hex_upper(hi) as int == if hi < 10 { hi + 48 } else { hi + 55 });
        assert(hex_upper(lo) as int == if lo < 10 { lo + 48 } else { lo + 55 });
    }
}

proof fn lemma_trim_start_cut(s: Seq<char>)
    ensures
        forall|i: int| 0 <= i < s.len() - trim_start(s).len() ==> is_white_space(#[trigger] s[i]),
    decreases s.len(),
{
    lemma_trim_start(s);
    if s.len() > 0 && is_white_space(s[0]) {
        lemma_trim_start_cut(s.drop_first());
        assert forall|i: int| 0 <= i < s.len() - trim_start(s).len() implies is_white_space(
            #[trigger] s[i],
        ) by {
            if i > 0 {
                assert(s[i] == s.drop_first()[i - 1]);
            }
        }
    }
}

proof fn lemma_trim_end_cut(s: Seq<char>)
    ensures
        forall|i: int| trim_end(s).len() <= i < s.len() ==> is_white_space(#[trigger] s[i]),
    decreases s.len(),
{
    lemma_trim_end(s);
    if s.len() > 0 && is_white_space(s.last()) {
        lemma_trim_end_cut(s.drop_last());
        assert forall|i: int| trim_end(s).len() <= i < s.len() implies is_white_space(
            #[trigger] s[i],
        ) by {
            if i < s.len() - 1 {
                assert(s[i] == s.drop_last()[i]);
            }
        }
    }
}

/// Trimming keeps the part of `s` between its leading and trailing white
/// space: all that is cut off is white space, and what is kept neither
/// starts nor ends with white space.
pub proof fn law_trim_cuts_only_white_space(s: Seq<char>)
    ensures
        exists|p: int, q: int|
            #![trigger s.subrange(p, q)]
            0 <= p <= q <= s.len() && trim(s) == s.subrange(p, q) && (forall|i: int|
                0 <= i < p ==> is_white_space(#[trigger] s[i])) && (forall|i: int|
                q <= i < s.len() ==> is_white_space(#[trigger] s[i])) && (p < q ==> (
            !is_white_space(s[p]) && !is_white_space(s[q - 1]))),
{
    lemma_trim_start(s);
    lemma_trim_start_cut(s);
    let u = trim_start(s);
    lemma_trim_end(u);
    lemma_trim_end_cut(u);
    let p = s.len() - u.len();
    let q = p + trim_end(u).len();
    assert(s.subrange(p, q) =~= trim(s));
    assert forall|i: int| q <= i < s.len() implies is_white_space(#[trigger] s[i]) by {
        assert(s[i] == u[i - p]);
    }
    if p < q {
        assert(s[p] == trim_end(u)[0]);
        assert(trim_end(u)[0] == u[0]);
        assert(s[q - 1] == trim_end(u).last());
    }
}

/// The keyword rules: a title that is not blank gives the keyword, trimmed;
/// otherwise a query that is not blank does; otherwise the search has none
/// and the error names the title.
pub proof fn law_keyword_rules(p: SearchParamsView)
    ensures
        (p.title matches Some(t) && trim(t).len() > 0) ==> search_keyword(p) == Ok::<
            Seq<char>,
            Seq<char>,
        >(trim(p.title->0)),
        ((p.title matches Some(t) ==> trim(t).len() == 0) && (p.query matches Some(q) && trim(
            q,
        ).len() > 0)) ==> search_keyword(p) == Ok::<Seq<char>, Seq<char>>(trim(p.query->0)),
        ((p.title matches Some(t) ==> trim(t).len() == 0) && (p.query matches Some(q) ==> trim(
            q,
        ).len() == 0)) ==> search_keyword(p) == Err::<Seq<char>, Seq<char>>(
            "Missing required search field: title"@,
        ),
{
}

/// The first piece of `s` split at `p` is a prefix of `s` with no whole `p`
/// in it; when `s` holds `p`, the first `p` follows right after the piece.
pub proof fn law_first_piece(s: Seq<char>, p: Seq<char>)
    ensures
        first_piece(s, p).len() <= s.len(),
        first_piece(s, p) == s.take(first_piece(s, p).len() as int),
        !contains(first_piece(s, p), p) || p.len() == 0,
        contains(s, p) ==> occurs_at(s, p, first_piece(s, p).len() as int),
        !contains(s, p) ==> first_piece(s, p) == s,
{
    lemma_find_from(s, p, 0);
    let f = first_piece(s, p);
    match find(s, p) {
        Some(k) => {
            assert(f =~= s.take(k));
            if contains(f, p) && p.len() > 0 {
                lemma_contains_iff(f, p);
                let j = choose|j: int| occurs_at(f, p, j);
                lemma_occurs_in_part(s, 0, k, p, j);
                assert(s.subrange(0, k) =~= f);
            }
        },
        None => {
            assert(s.take(s.len() as int) =~= s);
        },
    }
}

/// What follows the last `c` of `s` is a suffix of `s` without `c`; when
/// `s` holds `c`, a `c` stands right before it.
pub proof fn law_after_last(s: Seq<char>, c: char)
    ensures
        after_last(s, c).len() <= s.len(),
        after_last(s, c) == s.skip(s.len() - after_last(s, c).len()),
        forall|k: int| 0 <= k < after_last(s, c).len() ==> after_last(s, c)[k] != c,
        after_last(s, c).len() < s.len() ==> s[s.len() - after_last(s, c).len() - 1] == c,
        (forall|k: int| 0 <= k < s.len() ==> s[k] != c) ==> after_last(s, c) == s,
    decreases s.len(),
{
    if s.len() == 0 {
    } else if s.last() == c {
        assert(s.skip(s.len() as int) =~= Seq::<char>::empty());
    } else {
        law_after_last(s.drop_last(), c);
        let a = after_last(s.drop_last(), c);
        assert(a.push(s.last()) =~= s.skip(s.len() - a.len() - 1));
        if a.len() < s.drop_last().len() {
            assert(s[s.len() - a.len() - 2] == s.drop_last()[s.drop_last().len() - a.len() - 1]);
        }
        if forall|k: int| 0 <= k < s.len() ==> s[k] != c {
            assert forall|k: int| 0 <= k < s.drop_last().len() implies s.drop_last()[k] != c by {
                assert(s.drop_last()[k] == s[k]);
            }
            assert(s.drop_last().push(s.last()) =~= s);
        }
    }
}

} // verus!
