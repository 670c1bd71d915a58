use vstd::prelude::*;
use crate::text::{
    str_chars, chars_to_string, copy_range, extend_chars, parse_usize, trim_end_char,
    leading_numeral, find_sub, contains_sub, spec_parse_usize, spec_trim_end_char,
    spec_leading_numeral, spec_find, spec_contains, spec_remove_pat, remove_pat,
};
use crate::story::{Story, StoryView, view_opt_str, story_views};
use crate::errors::HnError;
use crate::PAGE_SIZE;

verus! {

// The listing extractor maps what the structural queries read out of a
// listing document -- one `StoryRow` per story row, one `SubtextRow` per
// metadata row, paired by position -- to the retained stories, in document
// order.

/// What one story row carries: the id attribute, the optional explicit rank
/// label, and the title link's text and target.
pub struct StoryRow {
    pub id: Option<String>,
    pub rank_text: Option<String>,
    pub title: Option<String>,
    pub href: Option<String>,
}

/// What one metadata row carries. `anchor_texts` holds the text of every
/// anchor in the row, in document order; the comment count hides in the
/// first one that mentions comments or discussion.
pub struct SubtextRow {
    pub score_text: Option<String>,
    pub author: Option<String>,
    pub age_text: Option<String>,
    pub anchor_texts: Vec<String>,
}

// ---------------------------------------------------------------------------
// Link resolution
// ---------------------------------------------------------------------------

pub open spec fn spec_base_url() -> Seq<char> {
    "https://news.ycombinator.com"@
}

pub open spec fn starts_with_http(s: Seq<char>) -> bool {
    s.len() >= 4 && s[0] == 'h' && s[1] == 't' && s[2] == 't' && s[3] == 'p'
}

pub open spec fn spec_strip_leading_slashes(s: Seq<char>) -> Seq<char>
    decreases s.len(),
{
    if s.len() > 0 && s[0] == '/' {
        spec_strip_leading_slashes(s.drop_first())
    } else {
        s
    }
}

/// An absolute link passes through; a relative one is resolved against the
/// site base, duplicated leading slashes stripped.
pub open spec fn spec_resolve_url(href: Seq<char>) -> Seq<char> {
    if starts_with_http(href) {
        href
    } else {
        spec_base_url() + seq!['/'] + spec_strip_leading_slashes(href)
    }
}

fn resolve_url_chars(h: &Vec<char>) -> (r: Vec<char>)
    ensures
        r@ == spec_resolve_url(h@),
{
    if h.len() >= 4 && h[0] == 'h' && h[1] == 't' && h[2] == 't' && h[3] == 'p' {
        copy_range(h, 0, h.len())
    } else {
        let mut r = str_chars("https://news.ycombinator.com");
        r.push('/');
        let mut i: usize = 0;
        proof {
            assert(h@.skip(0) =~= h@);
        }
        while i < h.len() && h[i] == '/'
            invariant
                0 <= i <= h@.len(),
                spec_strip_leading_slashes(h@) == spec_strip_leading_slashes(h@.skip(i as int)),
            decreases h@.len() - i,
        {
            proof {
                assert(h@.skip(i as int)[0] == h@[i as int]);
                assert(h@.skip(i as int).drop_first() =~= h@.skip(i as int + 1));
            }
            i = i + 1;
        }
        proof {
            if i < h@.len() {
                assert(h@.skip(i as int)[0] == h@[i as int]);
            } else {
                assert(h@.skip(i as int) =~= Seq::<char>::empty());
            }
            assert(spec_strip_leading_slashes(h@) == h@.skip(i as int));
        }
        let tail = copy_range(h, i, h.len());
        proof {
            assert(tail@ =~= h@.skip(i as int));
        }
        extend_chars(&mut r, &tail);
        proof {
            assert(r@ =~= spec_resolve_url(h@));
        }
        r
    }
}

/// Resolve a link against the site base.
pub fn resolve_url(href: &str) -> (r: String)
    ensures
        r@ == spec_resolve_url(href@),
{
    let h = str_chars(href);
    let rc = resolve_url_chars(&h);
    chars_to_string(&rc)
}

// ---------------------------------------------------------------------------
// Host display: the text between the scheme separator and the next slash
// ---------------------------------------------------------------------------

/// The displayable domain of a link: what stands after the first `://`, cut
/// before the next `://` and before the first `/`; the whole text when no
/// scheme separator occurs.
pub open spec fn spec_domain(s: Seq<char>) -> Seq<char> {
    match spec_find(s, seq![':', '/', '/']) {
        None => s,
        Some(i) => {
            let after = s.skip(i + 3);
            let seg = match spec_find(after, seq![':', '/', '/']) {
                Some(j) => after.take(j),
                None => after,
            };
            match spec_find(seg, seq!['/']) {
                Some(k) => seg.take(k),
                None => seg,
            }
        },
    }
}

pub fn extract_domain(url: &str) -> (r: String)
    ensures
        r@ == spec_domain(url@),
{
    let v = str_chars(url);
    let n = v.len();
    let mut arrow: Vec<char> = Vec::new();
    arrow.push(':');
    arrow.push('/');
    arrow.push('/');
    proof {
        assert(arrow@ =~= seq![':', '/', '/']);
    }
    match find_sub(&v, &arrow) {
        None => chars_to_string(&v),
        Some(i) => {
            proof {
                assert(arrow@.len() == 3);
            }
            let after = copy_range(&v, i + 3, n);
            proof {
                assert(after@ =~= v@.skip(i as int + 3));
            }
            let seg = match find_sub(&after, &arrow) {
                Some(j) => copy_range(&after, 0, j),
                None => copy_range(&after, 0, after.len()),
            };
            proof {
                assert(seg@ =~= match spec_find(after@, seq![':', '/', '/']) {
                    Some(j) => after@.take(j),
                    None => after@,
                });
            }
            let mut slash: Vec<char> = Vec::new();
            slash.push('/');
            proof {
                assert(slash@ =~= seq!['/']);
            }
            let dom = match find_sub(&seg, &slash) {
                Some(k) => copy_range(&seg, 0, k),
                None => copy_range(&seg, 0, seg.len()),
            };
            proof {
                assert(dom@ =~= spec_domain(url@));
            }
            chars_to_string(&dom)
        },
    }
}

// ---------------------------------------------------------------------------
// Field extraction
// ---------------------------------------------------------------------------

/// Synthesized rank for a story without an explicit rank label: position on
/// the page, offset by the pages before it, saturating at the machine limit.
pub open spec fn spec_synth_rank(page: usize, idx: int) -> usize {
    let r = (page - 1) * (PAGE_SIZE as int) + idx + 1;
    if r > usize::MAX {
        usize::MAX
    } else {
        r as usize
    }
}

pub fn synth_rank(page: usize, idx: usize) -> (r: usize)
    requires
        page >= 1,
    ensures
        r == spec_synth_rank(page, idx as int),
{
    let wide: u128 = (page - 1) as u128 * PAGE_SIZE as u128 + idx as u128 + 1;
    if wide > usize::MAX as u128 {
        usize::MAX
    } else {
        wide as usize
    }
}

/// A story row is retained exactly when it carries a non-empty title.
pub open spec fn spec_retained(row: StoryRow) -> bool {
    match row.title {
        Some(t) => t@.len() > 0,
        None => false,
    }
}

pub open spec fn spec_row_id(row: StoryRow) -> Seq<char> {
    match row.id {
        Some(s) => s@,
        None => "unknown"@,
    }
}

/// Explicit rank label if present and numeric (trailing dots stripped), else
/// the synthesized positional rank.
pub open spec fn spec_row_rank(row: StoryRow, page: usize, idx: int) -> usize {
    match row.rank_text {
        Some(t) => match spec_parse_usize(spec_trim_end_char(t@, '.')) {
            Some(n) => n,
            None => spec_synth_rank(page, idx),
        },
        None => spec_synth_rank(page, idx),
    }
}

pub open spec fn spec_row_url(row: StoryRow) -> Option<Seq<char>> {
    match row.href {
        Some(h) => Some(spec_resolve_url(h@)),
        None => None,
    }
}

/// Points: the leading numeral of the score text.
pub open spec fn spec_points(sub: SubtextRow) -> Option<usize> {
    match sub.score_text {
        Some(t) => spec_leading_numeral(t@),
        None => None,
    }
}

pub open spec fn spec_nbsp() -> Seq<char> {
    seq!['&', 'n', 'b', 's', 'p', ';']
}

/// Text of the first anchor that mentions comments or discussion.
pub open spec fn spec_comment_anchor(texts: Seq<String>) -> Option<Seq<char>>
    decreases texts.len(),
{
    if texts.len() == 0 {
        None
    } else if spec_contains(texts[0]@, "comment"@) || spec_contains(texts[0]@, "discuss"@) {
        Some(texts[0]@)
    } else {
        spec_comment_anchor(texts.drop_first())
    }
}

/// Comment count: the leading numeral of the first comment anchor's text,
/// after stripping the non-breaking-space artifact.
pub open spec fn spec_comment_count(sub: SubtextRow) -> Option<usize> {
    match spec_comment_anchor(sub.anchor_texts@) {
        Some(t) => spec_leading_numeral(spec_remove_pat(t, spec_nbsp())),
        None => None,
    }
}

pub open spec fn spec_sub_at(subs: Seq<SubtextRow>, idx: int) -> Option<SubtextRow> {
    if 0 <= idx < subs.len() {
        Some(subs[idx])
    } else {
        None
    }
}

/// The story a retained row at position `idx` (0-based) on page `page` maps to.
pub open spec fn spec_story_at(row: StoryRow, sub: Option<SubtextRow>, page: usize, idx: int)
    -> StoryView {
    StoryView {
        rank: spec_row_rank(row, page, idx),
        id: spec_row_id(row),
        title: match row.title {
            Some(t) => t@,
            None => Seq::<char>::empty(),
        },
        url: spec_row_url(row),
        points: match sub {
            Some(s) => spec_points(s),
            None => None,
        },
        author: match sub {
            Some(s) => view_opt_str(s.author),
            None => None,
        },
        comments: match sub {
            Some(s) => spec_comment_count(s),
            None => None,
        },
        age: match sub {
            Some(s) => view_opt_str(s.age_text),
            None => None,
        },
    }
}

/// The stories retained from the first `n` rows, in document order.
pub open spec fn spec_extract_upto(
    rows: Seq<StoryRow>,
    subs: Seq<SubtextRow>,
    page: usize,
    n: int,
) -> Seq<StoryView>
    decreases n,
{
    if n <= 0 {
        Seq::<StoryView>::empty()
    } else {
        let pre = spec_extract_upto(rows, subs, page, n - 1);
        if spec_retained(rows[n - 1]) {
            pre.push(spec_story_at(rows[n - 1], spec_sub_at(subs, n - 1), page, n - 1))
        } else {
            pre
        }
    }
}

pub open spec fn spec_extract(rows: Seq<StoryRow>, subs: Seq<SubtextRow>, page: usize) -> Seq<
    StoryView,
> {
    spec_extract_upto(rows, subs, page, rows.len() as int)
}

/// Every extracted story has a non-empty title: the empty-title filter is an
/// invariant of extraction, whatever the document held.
pub proof fn lemma_extract_titles_nonempty(
    rows: Seq<StoryRow>,
    subs: Seq<SubtextRow>,
    page: usize,
    n: int,
)
    ensures
        forall|k: int|
            0 <= k < spec_extract_upto(rows, subs, page, n).len() ==> (
            #[trigger] spec_extract_upto(rows, subs, page, n)[k]).title.len() > 0,
    decreases n,
{
    if n > 0 {
        lemma_extract_titles_nonempty(rows, subs, page, n - 1);
    }
}

fn story_points(sub: &SubtextRow) -> (r: Option<usize>)
    ensures
        r == spec_points(*sub),
{
    match &sub.score_text {
        Some(t) => {
            let tc = str_chars(t.as_str());
            leading_numeral(&tc)
        },
        None => None,
    }
}

fn story_comment_count(sub: &SubtextRow) -> (r: Option<usize>)
    ensures
        r == spec_comment_count(*sub),
{
    let comment_pat = str_chars("comment");
    let discuss_pat = str_chars("discuss");
    let mut j: usize = 0;
    proof {
        assert(sub.anchor_texts@.skip(0) =~= sub.anchor_texts@);
    }
    while j < sub.anchor_texts.len()
        invariant
            0 <= j <= sub.anchor_texts@.len(),
            comment_pat@ == "comment"@,
            discuss_pat@ == "discuss"@,
            spec_comment_anchor(sub.anchor_texts@) == spec_comment_anchor(
                sub.anchor_texts@.skip(j as int),
            ),
        decreases sub.anchor_texts@.len() - j,
    {
        proof {
            assert(sub.anchor_texts@.skip(j as int)[0] == sub.anchor_texts@[j as int]);
            assert(sub.anchor_texts@.skip(j as int).drop_first() =~= sub.anchor_texts@.skip(
                j as int + 1,
            ));
        }
        let tc = str_chars(sub.anchor_texts[j].as_str());
        if contains_sub(&tc, &comment_pat) || contains_sub(&tc, &discuss_pat) {
            proof {
                assert(spec_comment_anchor(sub.anchor_texts@.skip(j as int)) == Some(
                    sub.anchor_texts@[j as int]@,
                ));
            }
            let mut nbsp: Vec<char> = Vec::new();
            nbsp.push('&');
            nbsp.push('n');
            nbsp.push('b');
            nbsp.push('s');
            nbsp.push('p');
            nbsp.push(';');
            proof {
                assert(nbsp@ =~= spec_nbsp());
            }
            let cleaned = remove_pat(&tc, &nbsp);
            return leading_numeral(&cleaned);
        }
        j = j + 1;
    }
    proof {
        assert(sub.anchor_texts@.skip(sub.anchor_texts@.len() as int) =~= Seq::<String>::empty());
    }
    None
}

fn story_rank(row: &StoryRow, page: usize, idx: usize) -> (r: usize)
    requires
        page >= 1,
    ensures
        r == spec_row_rank(*row, page, idx as int),
{
    match &row.rank_text {
        Some(t) => {
            let tc = str_chars(t.as_str());
            let trimmed = trim_end_char(&tc, '.');
            match parse_usize(&trimmed) {
                Some(n) => n,
                None => synth_rank(page, idx),
            }
        },
        None => synth_rank(page, idx),
    }
}

/// Map the queried rows of a listing document, paired by position with their
/// metadata rows, to the retained stories. Fails exactly when no story is
/// retained: the signal that the page structure may have changed.
pub fn extract_stories(rows: &Vec<StoryRow>, subs: &Vec<SubtextRow>, page: usize) -> (r: Result<
    Vec<Story>,
    HnError,
>)
    requires
        page >= 1,
    ensures
        match r {
            Ok(v) => story_views(v@) == spec_extract(rows@, subs@, page) && v@.len() > 0,
            Err(e) => spec_extract(rows@, subs@, page).len() == 0 && e == HnError::EmptyPage(
                page,
            ),
        },
        r matches Ok(v) ==> forall|k: int|
            0 <= k < v@.len() ==> (#[trigger] v@[k]@).title.len() > 0,
{
    let mut out: Vec<Story> = Vec::new();
    let mut idx: usize = 0;
    proof {
        assert(story_views(out@) =~= spec_extract_upto(rows@, subs@, page, 0));
    }
    while idx < rows.len()
        invariant
            page >= 1,
            0 <= idx <= rows@.len(),
            story_views(out@) == spec_extract_upto(rows@, subs@, page, idx as int),
        decreases rows@.len() - idx,
    {
        let row = &rows[idx];
        let keep = match &row.title {
            Some(t) => !t.as_str().is_empty(),
            None => false,
        };
        if keep {
            let rank = story_rank(row, page, idx);
            let id = match &row.id {
                Some(s) => s.clone(),
                None => "unknown".to_owned(),
            };
            let title = match &row.title {
                Some(t) => t.clone(),
                None => String::new(),
            };
            let url = match &row.href {
                Some(h) => Some(resolve_url(h.as_str())),
                None => None,
            };
            let mut points: Option<usize> = None;
            let mut author: Option<String> = None;
            let mut age: Option<String> = None;
            let mut comments: Option<usize> = None;
            if idx < subs.len() {
                let sub = &subs[idx];
                points = story_points(sub);
                author = match &sub.author {
                    Some(a) => Some(a.clone()),
                    None => None,
                };
                age = match &sub.age_text {
                    Some(a) => Some(a.clone()),
                    None => None,
                };
                comments = story_comment_count(sub);
            }
            let st = Story { rank, id, title, url, points, author, comments, age };
            let ghost prev = story_views(out@);
            proof {
                assert(st@ =~= spec_story_at(
                    rows@[idx as int],
                    spec_sub_at(subs@, idx as int),
                    page,
                    idx as int,
                ));
            }
            out.push(st);
            proof {
                assert(story_views(out@) =~= prev.push(st@));
            }
        }
        idx = idx + 1;
    }
    proof {
        lemma_extract_titles_nonempty(rows@, subs@, page, rows@.len() as int);
        assert forall|k: int| 0 <= k < out@.len() implies (#[trigger] out@[k]@).title.len()
            > 0 by {
            assert(story_views(out@)[k] == out@[k]@);
        }
    }
    if out.len() == 0 {
        Err(HnError::EmptyPage(page))
    } else {
        Ok(out)
    }
}

} // verus!
