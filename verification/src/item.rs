use vstd::prelude::*;
use crate::text::{
    str_chars, parse_usize, chars_to_string, normalize_lines, normalize_ws, split_ws, wrap_words,
    strings_of, spec_parse_usize, spec_norm_lines, spec_norm_ws, spec_words, spec_wrap,
};
use crate::listing::{spec_resolve_url, resolve_url};
use crate::story::view_opt_str;

verus! {

/// Only this many comments are materialized in full; the rest are reported
/// as a single remainder count.
pub const COMMENT_CAP: usize = 10;

/// Total display width; the wrap width shrinks with indentation to keep a
/// fixed right margin.
pub const WRAP_COLUMNS: usize = 80;

/// What the title query reads of a detail page: the first title link's text
/// and target.
pub struct TitleLink {
    pub text: String,
    pub href: Option<String>,
}

/// What one comment row carries: the indent attribute and the flattened text
/// of the comment body.
pub struct CommentRow {
    pub indent_text: Option<String>,
    pub body_text: Option<String>,
}

/// What a comment row's header carries, when the row has one.
pub struct CommentHead {
    pub author: Option<String>,
    pub age_text: Option<String>,
}

/// One materialized comment.
pub struct Comment {
    /// Indentation level as declared by the document; 0 when absent.
    pub depth: usize,
    /// `None` when the row had no header at all; `"[deleted]"` stands in
    /// for a header without an author link.
    pub author: Option<String>,
    pub age_text: Option<String>,
    /// Cleaned body text, greedily wrapped to the depth-dependent width.
    pub lines: Vec<String>,
}

#[verifier::ext_equal]
pub ghost struct CommentView {
    pub depth: usize,
    pub author: Option<Seq<char>>,
    pub age_text: Option<Seq<char>>,
    pub lines: Seq<Seq<char>>,
}

impl View for Comment {
    type V = CommentView;

    open spec fn view(&self) -> CommentView {
        CommentView {
            depth: self.depth,
            author: view_opt_str(self.author),
            age_text: view_opt_str(self.age_text),
            lines: self.lines@.map_values(|l: String| l@),
        }
    }
}

pub open spec fn comment_views(s: Seq<Comment>) -> Seq<CommentView> {
    s.map_values(|c: Comment| c@)
}

/// Extracted detail-page content. `comments` holds at most `COMMENT_CAP`
/// entries, in document order; `total_comments` counts every comment row of
/// the document, so zero distinguishes the no-comments state.
pub struct ItemDetail {
    pub title: Option<String>,
    pub url: Option<String>,
    pub body: Option<String>,
    pub comments: Vec<Comment>,
    pub total_comments: usize,
}

// ---------------------------------------------------------------------------
// Per-comment extraction
// ---------------------------------------------------------------------------

pub open spec fn spec_comment_depth(row: CommentRow) -> usize {
    match row.indent_text {
        Some(t) => match spec_parse_usize(t@) {
            Some(n) => n,
            None => 0,
        },
        None => 0,
    }
}

/// Wrap width at a given depth: the display width minus the indentation and
/// the bullet margin, floored at one column.
pub open spec fn spec_wrap_width(depth: usize) -> usize {
    if 2 * depth + 2 < WRAP_COLUMNS {
        (WRAP_COLUMNS - 2 * depth - 2) as usize
    } else {
        1
    }
}

pub fn wrap_width(depth: usize) -> (r: usize)
    ensures
        r == spec_wrap_width(depth),
{
    if depth <= 38 {
        WRAP_COLUMNS - (2 * depth + 2)
    } else {
        1
    }
}

pub open spec fn spec_comment_lines(row: CommentRow) -> Seq<Seq<char>> {
    match row.body_text {
        Some(b) => spec_wrap(
            spec_words(spec_norm_lines(b@)),
            spec_wrap_width(spec_comment_depth(row)) as int,
        ),
        None => Seq::<Seq<char>>::empty(),
    }
}

pub open spec fn spec_comment_at(row: CommentRow, head: Option<CommentHead>) -> CommentView {
    CommentView {
        depth: spec_comment_depth(row),
        author: match head {
            Some(h) => Some(
                match h.author {
                    Some(a) => a@,
                    None => "[deleted]"@,
                },
            ),
            None => None,
        },
        age_text: match head {
            Some(h) => Some(
                match h.age_text {
                    Some(a) => a@,
                    None => Seq::<char>::empty(),
                },
            ),
            None => None,
        },
        lines: spec_comment_lines(row),
    }
}

pub open spec fn spec_head_at(heads: Seq<Option<CommentHead>>, i: int) -> Option<CommentHead> {
    if 0 <= i < heads.len() {
        heads[i]
    } else {
        None
    }
}

/// The first `n` comment rows, materialized.
pub open spec fn spec_comments_upto(
    rows: Seq<CommentRow>,
    heads: Seq<Option<CommentHead>>,
    n: int,
) -> Seq<CommentView>
    decreases n,
{
    if n <= 0 {
        Seq::<CommentView>::empty()
    } else {
        spec_comments_upto(rows, heads, n - 1).push(
            spec_comment_at(rows[n - 1], spec_head_at(heads, n - 1)),
        )
    }
}

fn build_comment(row: &CommentRow, head: &Option<CommentHead>) -> (r: Comment)
    ensures
        r@ == spec_comment_at(*row, *head),
{
    let depth = match &row.indent_text {
        Some(t) => {
            let tc = str_chars(t.as_str());
            match parse_usize(&tc) {
                Some(n) => n,
                None => 0,
            }
        },
        None => 0,
    };
    let (author, age_text) = match head {
        Some(h) => {
            let a = match &h.author {
                Some(a) => a.clone(),
                None => "[deleted]".to_owned(),
            };
            let g = match &h.age_text {
                Some(g) => g.clone(),
                None => String::new(),
            };
            (Some(a), Some(g))
        },
        None => (None, None),
    };
    let lines = match &row.body_text {
        Some(b) => {
            let bc = str_chars(b.as_str());
            let norm = normalize_lines(&bc);
            let words = split_ws(&norm);
            let wrapped = wrap_words(&words, wrap_width(depth));
            strings_of(&wrapped)
        },
        None => Vec::new(),
    };
    let c = Comment { depth, author, age_text, lines };
    proof {
        assert(c@.lines =~= spec_comment_lines(*row));
        assert(c@ =~= spec_comment_at(*row, *head));
    }
    c
}

/// Body text of the page: whitespace-flattened and trimmed; all-whitespace
/// or absent text yields no body.
pub open spec fn spec_item_body(raw: Option<Seq<char>>) -> Option<Seq<char>> {
    match raw {
        Some(b) => if spec_norm_ws(b).len() == 0 {
            None
        } else {
            Some(spec_norm_ws(b))
        },
        None => None,
    }
}

/// Assemble the extracted detail page from what the structural queries read:
/// the first title link, the raw top text, and the comment rows with their
/// headers, paired by position. Exactly the first `COMMENT_CAP` comments are
/// materialized; `total_comments` reports the full count.
pub fn build_item(
    head: &Option<TitleLink>,
    raw_body: &Option<String>,
    rows: &Vec<CommentRow>,
    heads: &Vec<Option<CommentHead>>,
) -> (r: ItemDetail)
    ensures
        view_opt_str(r.title) == match *head {
            Some(h) => Some(h.text@),
            None => None::<Seq<char>>,
        },
        view_opt_str(r.url) == match *head {
            Some(h) => match h.href {
                Some(u) => Some(spec_resolve_url(u@)),
                None => None::<Seq<char>>,
            },
            None => None::<Seq<char>>,
        },
        view_opt_str(r.body) == spec_item_body(view_opt_str(*raw_body)),
        r.total_comments == rows@.len(),
        r.comments@.len() == if rows@.len() < COMMENT_CAP {
            rows@.len() as int
        } else {
            COMMENT_CAP as int
        },
        comment_views(r.comments@) == spec_comments_upto(
            rows@,
            heads@,
            r.comments@.len() as int,
        ),
{
    let (title, url) = match head {
        Some(h) => {
            let u = match &h.href {
                Some(u) => Some(resolve_url(u.as_str())),
                None => None,
            };
            (Some(h.text.clone()), u)
        },
        None => (None, None),
    };
    let body = match raw_body {
        Some(b) => {
            let bc = str_chars(b.as_str());
            let norm = normalize_ws(&bc);
            if norm.len() == 0 {
                None
            } else {
                Some(chars_to_string(&norm))
            }
        },
        None => None,
    };
    let total_comments = rows.len();
    let cap = if rows.len() < COMMENT_CAP {
        rows.len()
    } else {
        COMMENT_CAP
    };
    let mut comments: Vec<Comment> = Vec::new();
    let mut i: usize = 0;
    proof {
        assert(comment_views(comments@) =~= spec_comments_upto(rows@, heads@, 0));
    }
    while i < cap
        invariant
            0 <= i <= cap,
            cap <= rows@.len(),
            cap == if rows@.len() < COMMENT_CAP {
                rows@.len() as int
            } else {
                COMMENT_CAP as int
            },
            heads@.len() == heads.len(),
            comments@.len() == i,
            comment_views(comments@) == spec_comments_upto(rows@, heads@, i as int),
        decreases cap - i,
    {
        let c = if i < heads.len() {
            build_comment(&rows[i], &heads[i])
        } else {
            build_comment(&rows[i], &None)
        };
        let ghost prev = comment_views(comments@);
        proof {
            assert(c@ == spec_comment_at(rows@[i as int], spec_head_at(heads@, i as int)));
        }
        comments.push(c);
        proof {
            assert(comment_views(comments@) =~= prev.push(c@));
        }
        i = i + 1;
    }
    ItemDetail { title, url, body, comments, total_comments }
}

impl ItemDetail {
    /// How many comments beyond the materialized cap the page holds.
    pub fn remaining_comments(&self) -> (r: usize)
        ensures
            r == if self.total_comments > COMMENT_CAP {
                self.total_comments - COMMENT_CAP
            } else {
                0
            },
    {
        if self.total_comments > COMMENT_CAP {
            self.total_comments - COMMENT_CAP
        } else {
            0
        }
    }
}

// ---------------------------------------------------------------------------
// Comment-tree structure
// ---------------------------------------------------------------------------

/// Parent links inferred from depths alone, by the stack discipline: the
/// parent of comment `i` is the nearest preceding comment whose depth is
/// strictly smaller; depth gaps greater than one nest directly, without
/// error. The list is in pre-order, so this reconstructs the whole tree.
pub fn comment_parents(depths: &Vec<usize>) -> (r: Vec<Option<usize>>)
    ensures
        r@.len() == depths@.len(),
        forall|i: int|
            0 <= i < r@.len() ==> match #[trigger] r@[i] {
                Some(p) => p < i && depths@[p as int] < depths@[i] && (forall|k: int|
                    p < k < i ==> #[trigger] depths@[k] >= depths@[i]),
                None => forall|k: int| 0 <= k < i ==> #[trigger] depths@[k] >= depths@[i],
            },
{
    let mut r: Vec<Option<usize>> = Vec::new();
    let mut i: usize = 0;
    while i < depths.len()
        invariant
            0 <= i <= depths@.len(),
            r@.len() == i,
            forall|q: int|
                0 <= q < i ==> match #[trigger] r@[q] {
                    Some(p) => p < q && depths@[p as int] < depths@[q] && (forall|k: int|
                        p < k < q ==> #[trigger] depths@[k] >= depths@[q]),
                    None => forall|k: int| 0 <= k < q ==> #[trigger] depths@[k] >= depths@[q],
                },
        decreases depths@.len() - i,
    {
        let mut j: usize = i;
        let mut found: Option<usize> = None;
        while j > 0 && found.is_none()
            invariant
                0 <= j <= i < depths@.len(),
                match found {
                    Some(p) => p < i && depths@[p as int] < depths@[i as int] && (forall|k: int|
                        p < k < i ==> #[trigger] depths@[k] >= depths@[i as int]),
                    None => forall|k: int|
                        j <= k < i ==> #[trigger] depths@[k] >= depths@[i as int],
                },
            decreases j,
        {
            if depths[j - 1] < depths[i] {
                found = Some(j - 1);
                j = 0;
            } else {
                j = j - 1;
            }
        }
        r.push(found);
        i = i + 1;
    }
    r
}

} // verus!
