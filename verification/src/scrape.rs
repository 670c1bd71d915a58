use vstd::prelude::*;
use scraper::{Html, Selector};
use crate::errors::HnError;
use crate::item::{
    build_item, comment_views, spec_comments_upto, spec_item_body, CommentHead, CommentRow,
    ItemDetail, TitleLink, COMMENT_CAP,
};
use crate::listing::{extract_stories, spec_extract, spec_resolve_url, StoryRow, SubtextRow};
use crate::profile::{
    extract_profile_rows, spec_found, spec_profile, ProfileRow, UserProfile,
};
use crate::story::{story_views, view_opt_str, Story};

verus! {

// The structural queries live here, behind trusted wrappers: scraper parses
// the document and locates the nodes, and each wrapper hands the extractors
// the plain values those nodes carry. Parsing and querying are deterministic
// functions of the document text alone, so each wrapper's result bears a
// name, and the extractors' contracts pin their results over those names.
// Every selector below is a fixed, valid literal, so compiling one cannot
// fail; a defect in one of these literals would be a programming error, and
// the `unwrap` would abort, not surface as a runtime error. What the
// extractors then do with the queried values is verified against the
// contracts in `listing`, `item` and `profile`.

/// The story rows a listing document holds: for each `tr.athing` row in
/// document order, its id attribute, first rank label, and first title
/// link's text and target.
pub uninterp spec fn story_rows_of(s: Seq<char>) -> Seq<StoryRow>;

/// The metadata rows a listing document holds: for each `td.subtext` cell in
/// document order, its first score, user and age texts and every anchor text.
pub uninterp spec fn subtext_rows_of(s: Seq<char>) -> Seq<SubtextRow>;

/// The first title link of a detail document, when one exists.
pub uninterp spec fn title_link_of(s: Seq<char>) -> Option<TitleLink>;

/// The concatenated text of a detail document's first top-text node.
pub uninterp spec fn top_text_of(s: Seq<char>) -> Option<String>;

/// The comment rows of a detail document, in document order.
pub uninterp spec fn comment_rows_of(s: Seq<char>) -> Seq<CommentRow>;

/// The comment headers of a detail document, one per comment row, in
/// document order; `None` where a row has no header.
pub uninterp spec fn comment_heads_of(s: Seq<char>) -> Seq<Option<CommentHead>>;

/// The table rows of a profile document: for each `tr` in document order,
/// the plain text and inner markup of each of its cells.
pub uninterp spec fn profile_rows_of(s: Seq<char>) -> Seq<ProfileRow>;

/// Relies on scraper's `Html::parse_document` (which does not fail) and
/// `Html::select` with the `tr.athing` selector, reading each row through
/// `ElementRef::attr` and `inner_html`: the listing document's story rows,
/// a function of the document text alone.
#[verifier::external_body]
fn scrape_story_rows(html: &str) -> (r: Vec<StoryRow>)
    ensures
        r@ == story_rows_of(html@),
{
    let doc = Html::parse_document(html);
    let row_sel = Selector::parse("tr.athing").unwrap();
    let rank_sel = Selector::parse("span.rank").unwrap();
    let title_sel = Selector::parse("span.titleline > a").unwrap();
    doc.select(&row_sel)
        .map(|row| {
            let link = row.select(&title_sel).next();
            StoryRow {
                id: row.attr("id").map(|s| s.to_string()),
                rank_text: row.select(&rank_sel).next().map(|e| e.inner_html()),
                title: link.map(|e| e.inner_html()),
                href: link.and_then(|e| e.attr("href")).map(|s| s.to_string()),
            }
        })
        .collect()
}

/// Relies on scraper's `Html::parse_document` and `Html::select` with the
/// `tr > td.subtext` selector: the listing document's metadata rows, a
/// function of the document text alone.
#[verifier::external_body]
fn scrape_subtext_rows(html: &str) -> (r: Vec<SubtextRow>)
    ensures
        r@ == subtext_rows_of(html@),
{
    let doc = Html::parse_document(html);
    let sub_sel = Selector::parse("tr > td.subtext").unwrap();
    let score_sel = Selector::parse("span.score").unwrap();
    let user_sel = Selector::parse("a.hnuser").unwrap();
    let age_sel = Selector::parse("span.age a").unwrap();
    let link_sel = Selector::parse("a").unwrap();
    doc.select(&sub_sel)
        .map(|td| SubtextRow {
            score_text: td.select(&score_sel).next().map(|e| e.inner_html()),
            author: td.select(&user_sel).next().map(|e| e.inner_html()),
            age_text: td.select(&age_sel).next().map(|e| e.inner_html()),
            anchor_texts: td.select(&link_sel).map(|a| a.inner_html()).collect(),
        })
        .collect()
}

/// Relies on scraper's `Html::parse_document` and `Html::select` with the
/// `span.titleline` selector: the first link inside the first title
/// container, a function of the document text alone.
#[verifier::external_body]
fn scrape_item_head(html: &str) -> (r: Option<TitleLink>)
    ensures
        r == title_link_of(html@),
{
    let doc = Html::parse_document(html);
    let title_sel = Selector::parse("span.titleline").unwrap();
    let link_sel = Selector::parse("a").unwrap();
    doc.select(&title_sel).next().and_then(|e| e.select(&link_sel).next()).map(|link| TitleLink {
        text: link.inner_html(),
        href: link.attr("href").map(|s| s.to_string()),
    })
}

/// Relies on scraper's `Html::parse_document`, `Html::select` with the
/// `div.toptext` selector and `ElementRef::text`: the first top-text node's
/// concatenated text, a function of the document text alone.
#[verifier::external_body]
fn scrape_top_text(html: &str) -> (r: Option<String>)
    ensures
        r == top_text_of(html@),
{
    let doc = Html::parse_document(html);
    let text_sel = Selector::parse("div.toptext").unwrap();
    doc.select(&text_sel).next().map(|e| e.text().collect::<String>())
}

/// Relies on scraper's `Html::parse_document` and `Html::select` with the
/// `tr.athing.comtr` selector: the comment rows' indent attributes and
/// space-joined text, a function of the document text alone.
#[verifier::external_body]
fn scrape_comment_rows(html: &str) -> (r: Vec<CommentRow>)
    ensures
        r@ == comment_rows_of(html@),
{
    let doc = Html::parse_document(html);
    let row_sel = Selector::parse("tr.athing.comtr").unwrap();
    let ind_sel = Selector::parse("td.ind").unwrap();
    let text_sel = Selector::parse("div.commtext").unwrap();
    doc.select(&row_sel)
        .map(|row| CommentRow {
            indent_text: row.select(&ind_sel).next().and_then(|td| td.attr("indent")).map(|s| s.to_string()),
            body_text: row.select(&text_sel).next().map(|t| t.text().collect::<Vec<_>>().join(" ")),
        })
        .collect()
}

/// Relies on scraper's `Html::parse_document` and `Html::select` with the
/// `tr.athing.comtr` and `span.comhead` selectors: per comment row, its
/// header's author and age texts, a function of the document text alone.
#[verifier::external_body]
fn scrape_comment_heads(html: &str) -> (r: Vec<Option<CommentHead>>)
    ensures
        r@ == comment_heads_of(html@),
{
    let doc = Html::parse_document(html);
    let row_sel = Selector::parse("tr.athing.comtr").unwrap();
    let head_sel = Selector::parse("span.comhead").unwrap();
    let user_sel = Selector::parse("a.hnuser").unwrap();
    let age_sel = Selector::parse("span.age a").unwrap();
    doc.select(&row_sel)
        .map(|row| row.select(&head_sel).next().map(|h| CommentHead {
            author: h.select(&user_sel).next().map(|a| a.inner_html()),
            age_text: h.select(&age_sel).next().map(|a| a.inner_html()),
        }))
        .collect()
}

/// Relies on scraper's `Html::parse_document` and `Html::select` with the
/// `tr` and `td` selectors, reading cells through `ElementRef::text` and
/// `inner_html`: the profile document's table rows, a function of the
/// document text alone.
#[verifier::external_body]
fn scrape_profile_rows(html: &str) -> (r: Vec<ProfileRow>)
    ensures
        r@ == profile_rows_of(html@),
{
    let doc = Html::parse_document(html);
    let tr_sel = Selector::parse("tr").unwrap();
    let td_sel = Selector::parse("td").unwrap();
    doc.select(&tr_sel)
        .map(|row| ProfileRow {
            cells: row.select(&td_sel).map(|c| (c.text().collect::<String>(), c.inner_html())).collect(),
        })
        .collect()
}

// ---------------------------------------------------------------------------
// Document-level extraction
// ---------------------------------------------------------------------------

/// Extract the stories of one listing document: exactly the retained stories
/// of the document's queried story and metadata rows, in document order, and
/// the empty-page signal exactly when that extraction retains nothing.
pub fn extract_listing(html: &str, page: usize) -> (r: Result<Vec<Story>, HnError>)
    requires
        page >= 1,
    ensures
        r matches Ok(v) ==> story_views(v@) == spec_extract(
            story_rows_of(html@),
            subtext_rows_of(html@),
            page,
        ) && v@.len() > 0 && (forall|k: int|
            0 <= k < v@.len() ==> (#[trigger] v@[k]@).title.len() > 0),
        r matches Err(e) ==> e == HnError::EmptyPage(page) && spec_extract(
            story_rows_of(html@),
            subtext_rows_of(html@),
            page,
        ).len() == 0,
{
    let rows = scrape_story_rows(html);
    let subs = scrape_subtext_rows(html);
    extract_stories(&rows, &subs, page)
}

/// Extract a detail page: exactly the queried title link and resolved
/// target, the flattened body, and the first `COMMENT_CAP` of the queried
/// comment rows materialized, with the full count reported.
pub fn extract_item(html: &str) -> (r: ItemDetail)
    ensures
        view_opt_str(r.title) == match title_link_of(html@) {
            Some(h) => Some(h.text@),
            None => None::<Seq<char>>,
        },
        view_opt_str(r.url) == match title_link_of(html@) {
            Some(h) => match h.href {
                Some(u) => Some(spec_resolve_url(u@)),
                None => None::<Seq<char>>,
            },
            None => None::<Seq<char>>,
        },
        view_opt_str(r.body) == spec_item_body(view_opt_str(top_text_of(html@))),
        r.total_comments == comment_rows_of(html@).len(),
        r.comments@.len() == if comment_rows_of(html@).len() < COMMENT_CAP {
            comment_rows_of(html@).len() as int
        } else {
            COMMENT_CAP as int
        },
        comment_views(r.comments@) == spec_comments_upto(
            comment_rows_of(html@),
            comment_heads_of(html@),
            r.comments@.len() as int,
        ),
        r.comments@.len() <= COMMENT_CAP,
        r.comments@.len() <= r.total_comments,
{
    let head = scrape_item_head(html);
    let body = scrape_top_text(html);
    let rows = scrape_comment_rows(html);
    let heads = scrape_comment_heads(html);
    build_item(&head, &body, &rows, &heads)
}

/// Extract a user profile document: exactly the fold of its queried rows,
/// and the not-found signal exactly when no recognized label occurs.
pub fn extract_profile(html: &str) -> (r: Result<UserProfile, HnError>)
    ensures
        r matches Ok(p) ==> spec_found(profile_rows_of(html@)) && p@ == spec_profile(
            profile_rows_of(html@),
        ),
        r matches Err(e) ==> e == HnError::ProfileNotFound && !spec_found(
            profile_rows_of(html@),
        ),
{
    let rows = scrape_profile_rows(html);
    extract_profile_rows(&rows)
}

} // verus!
