use vstd::prelude::*;
use crate::text::{
    str_chars, chars_to_string, extend_chars, u64_digits, parse_u64, parse_usize, split_char,
    views_of, spec_num_digits, spec_parse_u64, spec_parse_usize, spec_split, spec_join,
    lemma_split_len, lemma_split_solo, lemma_split_prefix, lemma_num_digits_parse,
    lemma_num_digits_no_char,
};
use crate::story::{Story, StoryView, view_opt_str, story_views};
use crate::errors::HnError;
use crate::CACHE_TTL_SECONDS;

verus! {

// The snapshot is one flat document: a decimal epoch-seconds timestamp on the
// first line, then one story per line, seven fields joined by '|'. A literal
// '|' inside a title is substituted by the visually similar '\u{2223}' before
// writing and reversed on reading.

pub open spec fn spec_escape_title(t: Seq<char>) -> Seq<char> {
    t.map_values(|c: char| if c == '|' { '\u{2223}' } else { c })
}

pub open spec fn spec_unescape_title(t: Seq<char>) -> Seq<char> {
    t.map_values(|c: char| if c == '\u{2223}' { '|' } else { c })
}

fn escape_title(v: &Vec<char>) -> (r: Vec<char>)
    ensures
        r@ == spec_escape_title(v@),
{
    let mut r: Vec<char> = Vec::new();
    let mut i: usize = 0;
    while i < v.len()
        invariant
            0 <= i <= v@.len(),
            r@.len() == i,
            forall|j: int| 0 <= j < i ==> r@[j] == spec_escape_title(v@)[j],
        decreases v@.len() - i,
    {
        if v[i] == '|' {
            r.push('\u{2223}');
        } else {
            r.push(v[i]);
        }
        i = i + 1;
    }
    proof {
        assert(r@ =~= spec_escape_title(v@));
    }
    r
}

fn unescape_title(v: &Vec<char>) -> (r: Vec<char>)
    ensures
        r@ == spec_unescape_title(v@),
{
    let mut r: Vec<char> = Vec::new();
    let mut i: usize = 0;
    while i < v.len()
        invariant
            0 <= i <= v@.len(),
            r@.len() == i,
            forall|j: int| 0 <= j < i ==> r@[j] == spec_unescape_title(v@)[j],
        decreases v@.len() - i,
    {
        if v[i] == '\u{2223}' {
            r.push('|');
        } else {
            r.push(v[i]);
        }
        i = i + 1;
    }
    proof {
        assert(r@ =~= spec_unescape_title(v@));
    }
    r
}

pub open spec fn spec_opt_text(o: Option<Seq<char>>) -> Seq<char> {
    match o {
        Some(s) => s,
        None => Seq::<char>::empty(),
    }
}

pub open spec fn spec_opt_num(o: Option<usize>) -> Seq<char> {
    match o {
        Some(n) => spec_num_digits(n as int),
        None => Seq::<char>::empty(),
    }
}

/// The encoded line of one story: seven '|'-separated fields, in the fixed
/// order rank, id, title, url, points, author, comment count. Absent optional
/// fields encode as empty fields. The age field is not persisted.
pub open spec fn spec_cache_line(v: StoryView) -> Seq<char> {
    spec_num_digits(v.rank as int) + seq!['|'] + v.id + seq!['|'] + spec_escape_title(v.title)
        + seq!['|'] + spec_opt_text(v.url) + seq!['|'] + spec_opt_num(v.points) + seq!['|']
        + spec_opt_text(v.author) + seq!['|'] + spec_opt_num(v.comments)
}

pub open spec fn spec_opt_of_text(s: Seq<char>) -> Option<Seq<char>> {
    if s.len() == 0 {
        None
    } else {
        Some(s)
    }
}

/// What decoding one line yields: `None` unless the line has exactly seven
/// fields and a numeric rank; unparsable optional numerals are tolerated and
/// read as absent, and the age field is always absent on a loaded story.
pub open spec fn spec_parse_line(line: Seq<char>) -> Option<StoryView> {
    let parts = spec_split(line, '|');
    if parts.len() != 7 {
        None
    } else {
        match spec_parse_usize(parts[0]) {
            None => None,
            Some(rank) => Some(
                StoryView {
                    rank,
                    id: parts[1],
                    title: spec_unescape_title(parts[2]),
                    url: spec_opt_of_text(parts[3]),
                    points: spec_parse_usize(parts[4]),
                    author: spec_opt_of_text(parts[5]),
                    comments: spec_parse_usize(parts[6]),
                    age: None,
                },
            ),
        }
    }
}

fn opt_string_chars(o: &Option<String>) -> (r: Vec<char>)
    ensures
        r@ == spec_opt_text(view_opt_str(*o)),
{
    match o {
        Some(s) => str_chars(s.as_str()),
        None => Vec::new(),
    }
}

fn opt_num_chars(o: &Option<usize>) -> (r: Vec<char>)
    ensures
        r@ == spec_opt_num(*o),
{
    match o {
        Some(n) => u64_digits(*n as u64),
        None => Vec::new(),
    }
}

fn cache_line_chars(s: &Story) -> (r: Vec<char>)
    ensures
        r@ == spec_cache_line(s@),
{
    let mut v = u64_digits(s.rank as u64);
    v.push('|');
    let id = str_chars(s.id.as_str());
    extend_chars(&mut v, &id);
    v.push('|');
    let title = str_chars(s.title.as_str());
    let etitle = escape_title(&title);
    extend_chars(&mut v, &etitle);
    v.push('|');
    let url = opt_string_chars(&s.url);
    extend_chars(&mut v, &url);
    v.push('|');
    let points = opt_num_chars(&s.points);
    extend_chars(&mut v, &points);
    v.push('|');
    let author = opt_string_chars(&s.author);
    extend_chars(&mut v, &author);
    v.push('|');
    let comments = opt_num_chars(&s.comments);
    extend_chars(&mut v, &comments);
    proof {
        assert(v@ =~= spec_cache_line(s@));
    }
    v
}

impl Story {
    /// One encoded snapshot line for this story.
    pub fn to_cache_line(&self) -> (r: String)
        ensures
            r@ == spec_cache_line(self@),
    {
        let v = cache_line_chars(self);
        chars_to_string(&v)
    }

    /// Decode one snapshot line; `None` for any line that does not decode to
    /// exactly seven fields with a numeric rank.
    pub fn from_cache_line(line: &str) -> (r: Option<Story>)
        ensures
            match r {
                Some(st) => spec_parse_line(line@) == Some(st@),
                None => spec_parse_line(line@) is None,
            },
    {
        let v = str_chars(line);
        let parts = split_char(&v, '|');
        if parts.len() != 7 {
            return None;
        }
        let rank = match parse_usize(&parts[0]) {
            Some(rank) => rank,
            None => {
                return None;
            },
        };
        let id = chars_to_string(&parts[1]);
        let tchars = unescape_title(&parts[2]);
        let title = chars_to_string(&tchars);
        let url = if parts[3].len() == 0 {
            None
        } else {
            Some(chars_to_string(&parts[3]))
        };
        let points = parse_usize(&parts[4]);
        let author = if parts[5].len() == 0 {
            None
        } else {
            Some(chars_to_string(&parts[5]))
        };
        let comments = parse_usize(&parts[6]);
        let st = Story { rank, id, title, url, points, author, comments, age: None };
        proof {
            let sparts = spec_split(line@, '|');
            assert(forall|k: int| 0 <= k < 7 ==> sparts[k] == parts@[k]@);
            assert(st@ =~= spec_parse_line(line@).unwrap());
        }
        Some(st)
    }
}

/// Fields that survive the flat encoding unchanged: no newline or delimiter
/// inside the unescaped fields, no substitution character inside the title,
/// and no empty text standing for a present optional field.
pub open spec fn cache_safe(v: StoryView) -> bool {
    &&& !v.id.contains('|') && !v.id.contains('\n')
    &&& !v.title.contains('\u{2223}') && !v.title.contains('\n')
    &&& match v.url {
        Some(u) => u.len() > 0 && !u.contains('|') && !u.contains('\n'),
        None => true,
    }
    &&& match v.author {
        Some(a) => a.len() > 0 && !a.contains('|') && !a.contains('\n'),
        None => true,
    }
}

proof fn lemma_escape_no_delim(t: Seq<char>)
    ensures
        !spec_escape_title(t).contains('|'),
{
    assert forall|i: int| 0 <= i < spec_escape_title(t).len() implies spec_escape_title(t)[i]
        != '|' by {
        assert(spec_escape_title(t)[i] == if t[i] == '|' {
            '\u{2223}'
        } else {
            t[i]
        });
    }
}

proof fn lemma_escape_round_trip(t: Seq<char>)
    requires
        !t.contains('\u{2223}'),
    ensures
        spec_unescape_title(spec_escape_title(t)) == t,
{
    assert forall|i: int| 0 <= i < t.len() implies spec_unescape_title(spec_escape_title(t))[i]
        == t[i] by {
        assert(t[i] != '\u{2223}');
    }
    assert(spec_unescape_title(spec_escape_title(t)) =~= t);
}

/// Encoding then decoding a story yields it back exactly, provided its fields
/// are cache-safe and it carries no fetch-time age.
/// The seven fields of an encoded line split back apart exactly.
#[verifier::spinoff_prover]
#[verifier::rlimit(100)]
proof fn lemma_split_fields(
    f0: Seq<char>,
    f1: Seq<char>,
    f2: Seq<char>,
    f3: Seq<char>,
    f4: Seq<char>,
    f5: Seq<char>,
    f6: Seq<char>,
)
    requires
        !f0.contains('|'),
        !f1.contains('|'),
        !f2.contains('|'),
        !f3.contains('|'),
        !f4.contains('|'),
        !f5.contains('|'),
        !f6.contains('|'),
    ensures
        spec_split(
            f0 + seq!['|'] + (f1 + seq!['|'] + (f2 + seq!['|'] + (f3 + seq!['|'] + (f4 + seq!['|']
                + (f5 + seq!['|'] + f6))))),
            '|',
        ) == seq![f0, f1, f2, f3, f4, f5, f6],
{
    let d = '|';
    lemma_split_solo(f6, d);
    lemma_split_prefix(f5, f6, d);
    let s5 = spec_split(f5 + seq![d] + f6, d);
    assert(s5 =~= seq![f5, f6]);
    lemma_split_prefix(f4, f5 + seq![d] + f6, d);
    let s4 = spec_split(f4 + seq![d] + (f5 + seq![d] + f6), d);
    assert(s4 =~= seq![f4, f5, f6]);
    lemma_split_prefix(f3, f4 + seq![d] + (f5 + seq![d] + f6), d);
    let s3 = spec_split(f3 + seq![d] + (f4 + seq![d] + (f5 + seq![d] + f6)), d);
    assert(s3 =~= seq![f3, f4, f5, f6]);
    lemma_split_prefix(f2, f3 + seq![d] + (f4 + seq![d] + (f5 + seq![d] + f6)), d);
    let s2 = spec_split(f2 + seq![d] + (f3 + seq![d] + (f4 + seq![d] + (f5 + seq![d] + f6))), d);
    assert(s2 =~= seq![f2, f3, f4, f5, f6]);
    lemma_split_prefix(f1, f2 + seq![d] + (f3 + seq![d] + (f4 + seq![d] + (f5 + seq![d] + f6))), d);
    let s1 = spec_split(
        f1 + seq![d] + (f2 + seq![d] + (f3 + seq![d] + (f4 + seq![d] + (f5 + seq![d] + f6)))),
        d,
    );
    assert(s1 =~= seq![f1, f2, f3, f4, f5, f6]);
    lemma_split_prefix(
        f0,
        f1 + seq![d] + (f2 + seq![d] + (f3 + seq![d] + (f4 + seq![d] + (f5 + seq![d] + f6)))),
        d,
    );
    assert(seq![f0] + s1 =~= seq![f0, f1, f2, f3, f4, f5, f6]);
}

/// Encoding then decoding a story yields it back exactly, provided its fields
/// are cache-safe and it carries no fetch-time age.
#[verifier::spinoff_prover]
#[verifier::rlimit(100)]
pub proof fn lemma_cache_line_round_trip(v: StoryView)
    requires
        cache_safe(v),
        v.age is None,
    ensures
        spec_parse_line(spec_cache_line(v)) == Some(v),
{
    let d = '|';
    let f0 = spec_num_digits(v.rank as int);
    let f1 = v.id;
    let f2 = spec_escape_title(v.title);
    let f3 = spec_opt_text(v.url);
    let f4 = spec_opt_num(v.points);
    let f5 = spec_opt_text(v.author);
    let f6 = spec_opt_num(v.comments);
    lemma_num_digits_parse(v.rank as int);
    assert(!f0.contains(d)) by {
        lemma_num_digits_no_char(v.rank as int, d);
    }
    lemma_escape_no_delim(v.title);
    assert(!f4.contains(d)) by {
        if v.points is Some {
            lemma_num_digits_no_char(v.points->0 as int, d);
        }
    }
    assert(!f6.contains(d)) by {
        if v.comments is Some {
            lemma_num_digits_no_char(v.comments->0 as int, d);
        }
    }
    lemma_split_fields(f0, f1, f2, f3, f4, f5, f6);
    assert(spec_cache_line(v) =~= f0 + seq![d] + (f1 + seq![d] + (f2 + seq![d] + (f3 + seq![d] + (
    f4 + seq![d] + (f5 + seq![d] + f6))))));
    let parts = spec_split(spec_cache_line(v), d);
    assert(parts == seq![f0, f1, f2, f3, f4, f5, f6]);
    assert(parts.len() == 7);
    assert(parts[0] == f0 && parts[1] == f1 && parts[2] == f2 && parts[3] == f3 && parts[4] == f4
        && parts[5] == f5 && parts[6] == f6);
    assert(spec_parse_usize(f0) == Some(v.rank));
    lemma_escape_round_trip(v.title);
    assert(spec_opt_of_text(f3) == v.url) by {
        if v.url is Some {
        }
    }
    assert(spec_parse_usize(f4) == v.points) by {
        if v.points is Some {
            lemma_num_digits_parse(v.points->0 as int);
        } else {
            assert(f4.len() == 0);
        }
    }
    assert(spec_opt_of_text(f5) == v.author) by {
        if v.author is Some {
        }
    }
    assert(spec_parse_usize(f6) == v.comments) by {
        if v.comments is Some {
            lemma_num_digits_parse(v.comments->0 as int);
        } else {
            assert(f6.len() == 0);
        }
    }
    assert(spec_parse_line(spec_cache_line(v)).unwrap() =~= v);
}

// ---------------------------------------------------------------------------
// Whole-snapshot encoding and decoding
// ---------------------------------------------------------------------------

/// The snapshot document: timestamp line, then one line per story.
pub open spec fn spec_snapshot(ts: u64, stories: Seq<StoryView>) -> Seq<char> {
    spec_num_digits(ts as int) + seq!['\n'] + spec_join(
        stories.map_values(|v: StoryView| spec_cache_line(v)),
        '\n',
    )
}

/// Encode a snapshot taken at `timestamp` (epoch seconds).
pub fn encode_snapshot(timestamp: u64, stories: &Vec<Story>) -> (r: String)
    ensures
        r@ == spec_snapshot(timestamp, story_views(stories@)),
{
    let mut v = u64_digits(timestamp);
    v.push('\n');
    let mut lines: Vec<Vec<char>> = Vec::new();
    let mut i: usize = 0;
    proof {
        assert(views_of(lines@) =~= story_views(stories@).take(0).map_values(
            |sv: StoryView| spec_cache_line(sv),
        ));
    }
    while i < stories.len()
        invariant
            0 <= i <= stories@.len(),
            views_of(lines@) == story_views(stories@).take(i as int).map_values(
                |sv: StoryView| spec_cache_line(sv),
            ),
        decreases stories@.len() - i,
    {
        let line = cache_line_chars(&stories[i]);
        let ghost prev = views_of(lines@);
        lines.push(line);
        proof {
            assert(views_of(lines@) =~= prev.push(spec_cache_line(stories@[i as int]@)));
            assert(views_of(lines@) =~= story_views(stories@).take(i as int + 1).map_values(
                |sv: StoryView| spec_cache_line(sv),
            ));
        }
        i = i + 1;
    }
    proof {
        assert(story_views(stories@).take(stories@.len() as int).map_values(
            |sv: StoryView| spec_cache_line(sv),
        ) =~= story_views(stories@).map_values(|sv: StoryView| spec_cache_line(sv)));
    }
    let joined = crate::text::join_chars(&lines, '\n');
    extend_chars(&mut v, &joined);
    proof {
        assert(v@ =~= spec_snapshot(timestamp, story_views(stories@)));
    }
    chars_to_string(&v)
}

/// The stories the snapshot body decodes to, malformed lines dropped.
pub open spec fn spec_decode_stories(ls: Seq<Seq<char>>) -> Seq<StoryView>
    decreases ls.len(),
{
    if ls.len() == 0 {
        Seq::<StoryView>::empty()
    } else {
        let pre = spec_decode_stories(ls.drop_last());
        match spec_parse_line(ls.last()) {
            Some(v) => pre.push(v),
            None => pre,
        }
    }
}

/// What loading a snapshot at time `now` yields. The first line is the
/// timestamp; a malformed timestamp disables the TTL check rather than
/// failing. The snapshot is expired exactly when `now - timestamp` exceeds
/// the TTL, so an age of exactly the TTL is still valid. Undecodable story
/// lines are dropped silently; only a wholly empty result is an error.
pub open spec fn spec_decode_snapshot(content: Seq<char>, now: u64) -> Result<
    Seq<StoryView>,
    HnError,
> {
    let lines = spec_split(content, '\n');
    let expired = match spec_parse_u64(lines[0]) {
        Some(ts) => now > ts + CACHE_TTL_SECONDS,
        None => false,
    };
    if expired {
        Err(HnError::CacheExpired)
    } else {
        let stories = spec_decode_stories(lines.drop_first());
        if stories.len() == 0 {
            Err(HnError::CacheEmpty)
        } else {
            Ok(stories)
        }
    }
}

/// Decode a snapshot document against the current time `now` (epoch seconds).
pub fn decode_snapshot(content: &str, now: u64) -> (r: Result<Vec<Story>, HnError>)
    ensures
        match r {
            Ok(stories) => spec_decode_snapshot(content@, now) == Ok::<Seq<StoryView>, HnError>(
                story_views(stories@),
            ) && stories@.len() > 0,
            Err(e) => spec_decode_snapshot(content@, now) == Err::<Seq<StoryView>, HnError>(e),
        },
        // the TTL boundary: with a readable timestamp the snapshot is
        // rejected as expired exactly when its age exceeds the TTL
        match spec_parse_u64(spec_split(content@, '\n')[0]) {
            Some(ts) => (r == Err::<Vec<Story>, HnError>(HnError::CacheExpired)) <==> now > ts
                + CACHE_TTL_SECONDS,
            None => !(r == Err::<Vec<Story>, HnError>(HnError::CacheExpired)),
        },
{
    let v = str_chars(content);
    let parts = split_char(&v, '\n');
    proof {
        lemma_split_len(v@, '\n');
    }
    match parse_u64(&parts[0]) {
        Some(ts) => {
            if ts < now && now - ts > CACHE_TTL_SECONDS {
                return Err(HnError::CacheExpired);
            }
        },
        None => {},
    }
    let ghost body = spec_split(content@, '\n').drop_first();
    let mut stories: Vec<Story> = Vec::new();
    let mut i: usize = 1;
    proof {
        assert(body.take(0) =~= Seq::<Seq<char>>::empty());
        assert(story_views(stories@) =~= spec_decode_stories(body.take(0)));
    }
    while i < parts.len()
        invariant
            1 <= i <= parts@.len(),
            views_of(parts@) == spec_split(content@, '\n'),
            body == spec_split(content@, '\n').drop_first(),
            story_views(stories@) == spec_decode_stories(body.take(i as int - 1)),
        decreases parts@.len() - i,
    {
        proof {
            assert(body.take(i as int).drop_last() =~= body.take(i as int - 1));
            assert(body.take(i as int).last() == parts@[i as int]@);
        }
        match parse_line_chars(&parts[i]) {
            Some(st) => {
                let ghost prev = story_views(stories@);
                stories.push(st);
                proof {
                    assert(story_views(stories@) =~= prev.push(st@));
                }
            },
            None => {},
        }
        i = i + 1;
    }
    proof {
        assert(body.take(parts@.len() as int - 1) =~= body);
    }
    if stories.len() == 0 {
        Err(HnError::CacheEmpty)
    } else {
        Ok(stories)
    }
}

fn parse_line_chars(line: &Vec<char>) -> (r: Option<Story>)
    ensures
        match r {
            Some(st) => spec_parse_line(line@) == Some(st@),
            None => spec_parse_line(line@) is None,
        },
{
    let s = chars_to_string(line);
    Story::from_cache_line(s.as_str())
}

proof fn lemma_concat_no_char(a: Seq<char>, b: Seq<char>, c: char)
    requires
        !a.contains(c),
        !b.contains(c),
    ensures
        !(a + b).contains(c),
{
    assert forall|i: int| 0 <= i < (a + b).len() implies (a + b)[i] != c by {
        if i < a.len() {
            assert((a + b)[i] == a[i]);
        } else {
            assert((a + b)[i] == b[i - a.len()]);
        }
    }
}

/// A cache-safe story's encoded line holds no newline, so lines split apart.
proof fn lemma_cache_line_no_newline(v: StoryView)
    requires
        cache_safe(v),
    ensures
        !spec_cache_line(v).contains('\n'),
{
    let nl = '\n';
    lemma_num_digits_no_char(v.rank as int, nl);
    assert(!seq!['|'].contains(nl)) by {
        assert(forall|i: int| 0 <= i < 1 ==> seq!['|'][i] == '|');
    }
    assert(!spec_escape_title(v.title).contains(nl)) by {
        assert forall|i: int|
            0 <= i < spec_escape_title(v.title).len() implies spec_escape_title(v.title)[i]
            != nl by {
            assert(spec_escape_title(v.title)[i] == if v.title[i] == '|' {
                '\u{2223}'
            } else {
                v.title[i]
            });
            assert(!v.title.contains(nl));
        }
    }
    assert(!spec_opt_text(v.url).contains(nl)) by {
        if v.url is None {
            assert(spec_opt_text(v.url).len() == 0);
        }
    }
    assert(!spec_opt_num(v.points).contains(nl)) by {
        if v.points is Some {
            lemma_num_digits_no_char(v.points->0 as int, nl);
        } else {
            assert(spec_opt_num(v.points).len() == 0);
        }
    }
    assert(!spec_opt_text(v.author).contains(nl)) by {
        if v.author is None {
            assert(spec_opt_text(v.author).len() == 0);
        }
    }
    assert(!spec_opt_num(v.comments).contains(nl)) by {
        if v.comments is Some {
            lemma_num_digits_no_char(v.comments->0 as int, nl);
        } else {
            assert(spec_opt_num(v.comments).len() == 0);
        }
    }
    lemma_concat_no_char(spec_num_digits(v.rank as int), seq!['|'], nl);
    lemma_concat_no_char(spec_num_digits(v.rank as int) + seq!['|'], v.id, nl);
    let p2 = spec_num_digits(v.rank as int) + seq!['|'] + v.id;
    lemma_concat_no_char(p2, seq!['|'], nl);
    lemma_concat_no_char(p2 + seq!['|'], spec_escape_title(v.title), nl);
    let p3 = p2 + seq!['|'] + spec_escape_title(v.title);
    lemma_concat_no_char(p3, seq!['|'], nl);
    lemma_concat_no_char(p3 + seq!['|'], spec_opt_text(v.url), nl);
    let p4 = p3 + seq!['|'] + spec_opt_text(v.url);
    lemma_concat_no_char(p4, seq!['|'], nl);
    lemma_concat_no_char(p4 + seq!['|'], spec_opt_num(v.points), nl);
    let p5 = p4 + seq!['|'] + spec_opt_num(v.points);
    lemma_concat_no_char(p5, seq!['|'], nl);
    lemma_concat_no_char(p5 + seq!['|'], spec_opt_text(v.author), nl);
    let p6 = p5 + seq!['|'] + spec_opt_text(v.author);
    lemma_concat_no_char(p6, seq!['|'], nl);
    lemma_concat_no_char(p6 + seq!['|'], spec_opt_num(v.comments), nl);
}

/// Joining newline-free lines and splitting again gives the lines back.
proof fn lemma_split_of_join(ls: Seq<Seq<char>>, d: char)
    requires
        ls.len() >= 1,
        forall|i: int| 0 <= i < ls.len() ==> !(#[trigger] ls[i]).contains(d),
    ensures
        spec_split(spec_join(ls, d), d) == ls,
    decreases ls.len(),
{
    if ls.len() == 1 {
        lemma_split_solo(ls[0], d);
        assert(spec_split(spec_join(ls, d), d) =~= ls);
    } else {
        let rest = ls.drop_first();
        assert(forall|i: int| 0 <= i < rest.len() ==> rest[i] == ls[i + 1]);
        lemma_split_of_join(rest, d);
        assert(spec_join(ls, d) == ls[0] + seq![d] + spec_join(rest, d));
        lemma_split_prefix(ls[0], spec_join(rest, d), d);
        assert(seq![ls[0]] + rest =~= ls);
    }
}

/// Encoding a snapshot and decoding it within the TTL yields the same
/// stories: nothing is lost, reordered or altered, provided every story is
/// cache-safe and carries no fetch-time age.
#[verifier::spinoff_prover]
#[verifier::rlimit(100)]
pub proof fn lemma_snapshot_round_trip(ts: u64, stories: Seq<StoryView>, now: u64)
    requires
        stories.len() > 0,
        forall|i: int|
            0 <= i < stories.len() ==> cache_safe(#[trigger] stories[i]) && stories[i].age
                is None,
        now <= ts + CACHE_TTL_SECONDS,
    ensures
        spec_decode_snapshot(spec_snapshot(ts, stories), now) == Ok::<Seq<StoryView>, HnError>(
            stories,
        ),
{
    let nl = '\n';
    let lines = stories.map_values(|v: StoryView| spec_cache_line(v));
    assert(forall|i: int| 0 <= i < lines.len() ==> lines[i] == spec_cache_line(stories[i]));
    assert forall|i: int| 0 <= i < lines.len() implies !(#[trigger] lines[i]).contains(nl) by {
        lemma_cache_line_no_newline(stories[i]);
    }
    lemma_num_digits_parse(ts as int);
    assert(!spec_num_digits(ts as int).contains(nl)) by {
        lemma_num_digits_no_char(ts as int, nl);
    }
    lemma_split_prefix(spec_num_digits(ts as int), spec_join(lines, nl), nl);
    assert(spec_snapshot(ts, stories) =~= spec_num_digits(ts as int) + seq![nl] + spec_join(
        lines,
        nl,
    ));
    lemma_split_of_join(lines, nl);
    let parts = spec_split(spec_snapshot(ts, stories), nl);
    assert(parts == seq![spec_num_digits(ts as int)] + lines);
    assert(parts[0] == spec_num_digits(ts as int));
    assert(spec_parse_u64(parts[0]) == Some(ts));
    assert(parts.drop_first() =~= lines);
    lemma_decode_encoded_lines(stories);
}

proof fn lemma_decode_encoded_lines(stories: Seq<StoryView>)
    requires
        forall|i: int|
            0 <= i < stories.len() ==> cache_safe(#[trigger] stories[i]) && stories[i].age
                is None,
    ensures
        spec_decode_stories(stories.map_values(|v: StoryView| spec_cache_line(v))) == stories,
    decreases stories.len(),
{
    let lines = stories.map_values(|v: StoryView| spec_cache_line(v));
    if stories.len() == 0 {
        assert(spec_decode_stories(lines) =~= stories);
    } else {
        lemma_decode_encoded_lines(stories.drop_last());
        assert(lines.drop_last() =~= stories.drop_last().map_values(
            |v: StoryView| spec_cache_line(v),
        ));
        assert(lines.last() == spec_cache_line(stories.last()));
        lemma_cache_line_round_trip(stories.last());
        assert(spec_decode_stories(lines) =~= stories.drop_last().push(stories.last()));
        assert(stories.drop_last().push(stories.last()) =~= stories);
    }
}


} // verus!
