use vstd::prelude::*;
use vstd::string::StrSliceExecFns;

verus! {

// ---------------------------------------------------------------------------
// Character classes
// ---------------------------------------------------------------------------

/// Whitespace characters recognized when trimming, tokenizing and wrapping.
pub open spec fn is_ws(c: char) -> bool {
    c == ' ' || c == '\t' || c == '\n' || c == '\r' || c == '\u{b}' || c == '\u{c}'
}

pub fn is_ws_char(c: char) -> (r: bool)
    ensures
        r == is_ws(c),
{
    c == ' ' || c == '\t' || c == '\n' || c == '\r' || c == '\u{b}' || c == '\u{c}'
}

pub open spec fn is_digit(c: char) -> bool {
    c == '0' || c == '1' || c == '2' || c == '3' || c == '4' || c == '5' || c == '6' || c == '7'
        || c == '8' || c == '9'
}

pub fn is_digit_char(c: char) -> (r: bool)
    ensures
        r == is_digit(c),
{
    c == '0' || c == '1' || c == '2' || c == '3' || c == '4' || c == '5' || c == '6' || c == '7'
        || c == '8' || c == '9'
}

/// Numeric value of a decimal digit character (unspecified for other input).
pub open spec fn digit_val(c: char) -> nat {
    if c == '0' {
        0
    } else if c == '1' {
        1
    } else if c == '2' {
        2
    } else if c == '3' {
        3
    } else if c == '4' {
        4
    } else if c == '5' {
        5
    } else if c == '6' {
        6
    } else if c == '7' {
        7
    } else if c == '8' {
        8
    } else {
        9
    }
}

pub fn digit_val_char(c: char) -> (r: u64)
    requires
        is_digit(c),
    ensures
        r == digit_val(c),
        r <= 9,
{
    if c == '0' {
        0
    } else if c == '1' {
        1
    } else if c == '2' {
        2
    } else if c == '3' {
        3
    } else if c == '4' {
        4
    } else if c == '5' {
        5
    } else if c == '6' {
        6
    } else if c == '7' {
        7
    } else if c == '8' {
        8
    } else {
        9
    }
}

/// Digit character for a value below ten (unspecified above).
pub open spec fn digit_char(d: int) -> char {
    if d == 0 {
        '0'
    } else if d == 1 {
        '1'
    } else if d == 2 {
        '2'
    } else if d == 3 {
        '3'
    } else if d == 4 {
        '4'
    } else if d == 5 {
        '5'
    } else if d == 6 {
        '6'
    } else if d == 7 {
        '7'
    } else if d == 8 {
        '8'
    } else {
        '9'
    }
}

pub fn digit_char_of(d: u64) -> (r: char)
    requires
        d <= 9,
    ensures
        r == digit_char(d as int),
{
    if d == 0 {
        '0'
    } else if d == 1 {
        '1'
    } else if d == 2 {
        '2'
    } else if d == 3 {
        '3'
    } else if d == 4 {
        '4'
    } else if d == 5 {
        '5'
    } else if d == 6 {
        '6'
    } else if d == 7 {
        '7'
    } else if d == 8 {
        '8'
    } else {
        '9'
    }
}

// ---------------------------------------------------------------------------
// Decimal numerals
// ---------------------------------------------------------------------------

/// Value of a digit string, most significant digit first.
pub open spec fn digit_seq_val(s: Seq<char>) -> nat
    decreases s.len(),
{
    if s.len() == 0 {
        0
    } else {
        digit_seq_val(s.drop_last()) * 10 + digit_val(s.last())
    }
}

pub open spec fn all_digits(s: Seq<char>) -> bool {
    forall|i: int| 0 <= i < s.len() ==> is_digit(s[i])
}

/// What parsing a non-negative decimal numeral yields: digits only, no sign,
/// no surrounding whitespace, and the value must fit.
pub open spec fn spec_parse_u64(s: Seq<char>) -> Option<u64> {
    if s.len() > 0 && all_digits(s) && digit_seq_val(s) <= u64::MAX {
        Some(digit_seq_val(s) as u64)
    } else {
        None
    }
}

pub open spec fn spec_parse_usize(s: Seq<char>) -> Option<usize> {
    match spec_parse_u64(s) {
        Some(v) => if v <= usize::MAX as u64 {
            Some(v as usize)
        } else {
            None
        },
        None => None,
    }
}

proof fn lemma_digit_seq_val_mono(s: Seq<char>, i: int)
    requires
        0 <= i <= s.len(),
    ensures
        digit_seq_val(s) >= digit_seq_val(s.take(i)),
    decreases s.len() - i,
{
    if i == s.len() {
        assert(s.take(i) =~= s);
    } else {
        lemma_digit_seq_val_mono(s, i + 1);
        assert(s.take(i + 1).drop_last() =~= s.take(i));
        assert(digit_seq_val(s.take(i + 1)) == digit_seq_val(s.take(i)) * 10 + digit_val(
            s.take(i + 1).last(),
        ));
    }
}

pub fn parse_u64(v: &Vec<char>) -> (r: Option<u64>)
    ensures
        r == spec_parse_u64(v@),
{
    if v.len() == 0 {
        return None;
    }
    let mut acc: u64 = 0;
    let mut i: usize = 0;
    while i < v.len()
        invariant
            0 <= i <= v@.len(),
            all_digits(v@.take(i as int)),
            acc == digit_seq_val(v@.take(i as int)),
        decreases v@.len() - i,
    {
        let c = v[i];
        if !is_digit_char(c) {
            return None;
        }
        let d = digit_val_char(c);
        if acc > (u64::MAX - d) / 10 {
            proof {
                assert(digit_seq_val(v@.take(i as int)) * 10 + digit_val(c) > u64::MAX) by (nonlinear_arith)
                    requires
                        digit_seq_val(v@.take(i as int)) > (u64::MAX - digit_val(c)) / 10,
                        digit_val(c) <= 9,
                ;
                assert(v@.take(i as int + 1).drop_last() =~= v@.take(i as int));
                assert(v@.take(i as int + 1).last() == v@[i as int]);
                lemma_digit_seq_val_mono(v@, i as int + 1);
            }
            return None;
        }
        proof {
            assert(digit_seq_val(v@.take(i as int)) * 10 + digit_val(c) <= u64::MAX) by (nonlinear_arith)
                requires
                    digit_seq_val(v@.take(i as int)) <= (u64::MAX - digit_val(c)) / 10,
                    digit_val(c) <= 9,
            ;
            assert(v@.take(i as int + 1).drop_last() =~= v@.take(i as int));
            assert(v@.take(i as int + 1).last() == v@[i as int]);
        }
        acc = acc * 10 + d;
        i = i + 1;
    }
    proof {
        assert(v@.take(v@.len() as int) =~= v@);
    }
    Some(acc)
}

pub fn parse_usize(v: &Vec<char>) -> (r: Option<usize>)
    ensures
        r == spec_parse_usize(v@),
{
    match parse_u64(v) {
        Some(n) => if n <= usize::MAX as u64 {
            Some(n as usize)
        } else {
            None
        },
        None => None,
    }
}

/// Decimal numeral of a non-negative number, most significant digit first.
pub open spec fn spec_num_digits(n: int) -> Seq<char>
    decreases n,
{
    if n < 10 {
        seq![digit_char(n)]
    } else {
        spec_num_digits(n / 10).push(digit_char(n % 10))
    }
}

pub fn u64_digits(n: u64) -> (r: Vec<char>)
    ensures
        r@ == spec_num_digits(n as int),
    decreases n,
{
    if n < 10 {
        let mut r: Vec<char> = Vec::new();
        r.push(digit_char_of(n));
        proof {
            assert(r@ =~= spec_num_digits(n as int));
        }
        r
    } else {
        proof {
            assert(n as int / 10 < n as int && n as int / 10 >= 1) by (nonlinear_arith)
                requires
                    n as int >= 10,
            ;
        }
        let mut r = u64_digits(n / 10);
        r.push(digit_char_of(n % 10));
        proof {
            assert(n as int % 10 <= 9 && n as int % 10 >= 0);
            assert(r@ =~= spec_num_digits(n as int));
        }
        r
    }
}

/// The numeral of `n` parses back to `n`: printing and parsing are inverse.
pub proof fn lemma_num_digits_parse(n: int)
    requires
        0 <= n <= u64::MAX,
    ensures
        spec_num_digits(n).len() >= 1,
        all_digits(spec_num_digits(n)),
        digit_seq_val(spec_num_digits(n)) == n,
        spec_parse_u64(spec_num_digits(n)) == Some(n as u64),
    decreases n,
{
    if n < 10 {
        let s = spec_num_digits(n);
        assert(s =~= seq![digit_char(n)]);
        assert(s.drop_last() =~= Seq::<char>::empty());
        assert(digit_seq_val(Seq::<char>::empty()) == 0);
        assert(digit_seq_val(s) == digit_val(digit_char(n)));
    } else {
        lemma_num_digits_parse(n / 10);
        let s = spec_num_digits(n);
        let p = spec_num_digits(n / 10);
        assert(s == p.push(digit_char(n % 10)));
        assert(s.drop_last() =~= p);
        assert(s.last() == digit_char(n % 10));
        assert(n % 10 <= 9 && n % 10 >= 0);
        assert(digit_val(digit_char(n % 10)) == n % 10);
        assert(digit_seq_val(s) == (n / 10) * 10 + n % 10);
        assert((n / 10) * 10 + n % 10 == n) by (nonlinear_arith)
            requires
                n >= 0,
        ;
        assert(forall|i: int| 0 <= i < s.len() ==> is_digit(#[trigger] s[i]));
    }
}

/// Digit strings never hold a delimiter, a newline, or any non-digit.
pub proof fn lemma_num_digits_no_char(n: int, c: char)
    requires
        0 <= n,
        !is_digit(c),
    ensures
        !spec_num_digits(n).contains(c),
    decreases n,
{
    if n < 10 {
    } else {
        lemma_num_digits_no_char(n / 10, c);
        assert(spec_num_digits(n) == spec_num_digits(n / 10).push(digit_char(n % 10)));
        assert(forall|i: int|
            0 <= i < spec_num_digits(n).len() ==> #[trigger] spec_num_digits(n)[i] != c);
    }
}

// ---------------------------------------------------------------------------
// Conversions between strings and character vectors
// ---------------------------------------------------------------------------

pub fn str_chars(s: &str) -> (r: Vec<char>)
    ensures
        r@ == s@,
{
    let n = s.unicode_len();
    let mut r: Vec<char> = Vec::new();
    let mut i: usize = 0;
    while i < n
        invariant
            n == s@.len(),
            0 <= i <= n,
            r@ =~= s@.take(i as int),
        decreases n - i,
    {
        r.push(s.get_char(i));
        i = i + 1;
    }
    proof {
        assert(s@.take(n as int) =~= s@);
    }
    r
}

/// Relies on `String: FromIterator<&char>`: collecting characters builds the
/// string of exactly those characters, in order.
#[verifier::external_body]
pub fn chars_to_string(v: &Vec<char>) -> (r: String)
    ensures
        r@ == v@,
{
    v.iter().collect()
}

pub fn copy_range(v: &Vec<char>, from: usize, to: usize) -> (r: Vec<char>)
    requires
        from <= to <= v@.len(),
    ensures
        r@ == v@.subrange(from as int, to as int),
{
    let mut r: Vec<char> = Vec::new();
    let mut i: usize = from;
    while i < to
        invariant
            from <= i <= to <= v@.len(),
            r@ =~= v@.subrange(from as int, i as int),
        decreases to - i,
    {
        r.push(v[i]);
        i = i + 1;
    }
    r
}

pub fn chars_eq(a: &Vec<char>, b: &Vec<char>) -> (r: bool)
    ensures
        r == (a@ == b@),
{
    if a.len() != b.len() {
        return false;
    }
    let mut i: usize = 0;
    while i < a.len()
        invariant
            a@.len() == b@.len(),
            0 <= i <= a@.len(),
            forall|j: int| 0 <= j < i ==> a@[j] == b@[j],
        decreases a@.len() - i,
    {
        if a[i] != b[i] {
            return false;
        }
        i = i + 1;
    }
    proof {
        assert(a@ =~= b@);
    }
    true
}

/// Character-for-character equality of a vector against a string slice.
pub fn chars_eq_str(a: &Vec<char>, s: &str) -> (r: bool)
    ensures
        r == (a@ == s@),
{
    let b = str_chars(s);
    chars_eq(a, &b)
}

pub fn extend_chars(dst: &mut Vec<char>, src: &Vec<char>)
    ensures
        final(dst)@ == old(dst)@ + src@,
{
    let mut j: usize = 0;
    while j < src.len()
        invariant
            0 <= j <= src@.len(),
            dst@ =~= old(dst)@ + src@.take(j as int),
        decreases src@.len() - j,
    {
        dst.push(src[j]);
        j = j + 1;
    }
    proof {
        assert(src@.take(src@.len() as int) =~= src@);
    }
}

/// The character sequences a vector of character vectors holds.
pub open spec fn views_of(s: Seq<Vec<char>>) -> Seq<Seq<char>> {
    s.map_values(|p: Vec<char>| p@)
}

// ---------------------------------------------------------------------------
// Trimming
// ---------------------------------------------------------------------------

pub open spec fn spec_trim_start(s: Seq<char>) -> Seq<char>
    decreases s.len(),
{
    if s.len() > 0 && is_ws(s[0]) {
        spec_trim_start(s.drop_first())
    } else {
        s
    }
}

pub open spec fn spec_trim_end(s: Seq<char>) -> Seq<char>
    decreases s.len(),
{
    if s.len() > 0 && is_ws(s.last()) {
        spec_trim_end(s.drop_last())
    } else {
        s
    }
}

/// What trimming surrounding whitespace yields.
pub open spec fn spec_trim(s: Seq<char>) -> Seq<char> {
    spec_trim_end(spec_trim_start(s))
}

pub fn trim_chars(v: &Vec<char>) -> (r: Vec<char>)
    ensures
        r@ == spec_trim(v@),
{
    proof {
        assert(v@.skip(0) =~= v@);
    }
    let mut lo: usize = 0;
    while lo < v.len() && is_ws_char(v[lo])
        invariant
            0 <= lo <= v@.len(),
            spec_trim_start(v@) == spec_trim_start(v@.skip(lo as int)),
        decreases v@.len() - lo,
    {
        proof {
            assert(v@.skip(lo as int)[0] == v@[lo as int]);
            assert(v@.skip(lo as int).drop_first() =~= v@.skip(lo as int + 1));
        }
        lo = lo + 1;
    }
    proof {
        if lo < v@.len() {
            assert(v@.skip(lo as int)[0] == v@[lo as int]);
        } else {
            assert(v@.skip(lo as int) =~= Seq::<char>::empty());
        }
        assert(spec_trim_start(v@) == v@.skip(lo as int));
    }
    let mut hi: usize = v.len();
    while hi > lo && is_ws_char(v[hi - 1])
        invariant
            lo <= hi <= v@.len(),
            spec_trim_end(v@.skip(lo as int)) == spec_trim_end(
                v@.subrange(lo as int, hi as int),
            ),
        decreases hi,
    {
        proof {
            assert(v@.subrange(lo as int, hi as int).last() == v@[hi as int - 1]);
            assert(v@.subrange(lo as int, hi as int).drop_last() =~= v@.subrange(
                lo as int,
                hi as int - 1,
            ));
        }
        hi = hi - 1;
    }
    proof {
        assert(v@.subrange(lo as int, v@.len() as int) =~= v@.skip(lo as int));
        if hi > lo {
            assert(v@.subrange(lo as int, hi as int).last() == v@[hi as int - 1]);
        } else {
            assert(v@.subrange(lo as int, hi as int) =~= Seq::<char>::empty());
        }
        assert(spec_trim_end(v@.subrange(lo as int, hi as int)) == v@.subrange(
            lo as int,
            hi as int,
        ));
    }
    copy_range(v, lo, hi)
}

/// What dropping every trailing occurrence of one character yields.
pub open spec fn spec_trim_end_char(s: Seq<char>, c: char) -> Seq<char>
    decreases s.len(),
{
    if s.len() > 0 && s.last() == c {
        spec_trim_end_char(s.drop_last(), c)
    } else {
        s
    }
}

pub fn trim_end_char(v: &Vec<char>, c: char) -> (r: Vec<char>)
    ensures
        r@ == spec_trim_end_char(v@, c),
{
    proof {
        assert(v@.take(v@.len() as int) =~= v@);
    }
    let mut hi: usize = v.len();
    while hi > 0 && v[hi - 1] == c
        invariant
            0 <= hi <= v@.len(),
            spec_trim_end_char(v@, c) == spec_trim_end_char(v@.take(hi as int), c),
        decreases hi,
    {
        proof {
            assert(v@.take(hi as int).last() == v@[hi as int - 1]);
            assert(v@.take(hi as int).drop_last() =~= v@.take(hi as int - 1));
        }
        hi = hi - 1;
    }
    proof {
        assert(v@.take(v@.len() as int) =~= v@);
        if hi > 0 {
            assert(v@.take(hi as int).last() == v@[hi as int - 1]);
        }
        assert(spec_trim_end_char(v@.take(hi as int), c) == v@.take(hi as int));
        assert(v@.take(hi as int) =~= v@.subrange(0, hi as int));
    }
    copy_range(v, 0, hi)
}

// ---------------------------------------------------------------------------
// Splitting on a delimiter and joining with a separator
// ---------------------------------------------------------------------------

/// Splitting on a delimiter: always at least one part; a delimiter at the
/// end yields a trailing empty part, as the standard splitter does.
pub open spec fn spec_split(s: Seq<char>, d: char) -> Seq<Seq<char>>
    decreases s.len(),
{
    if s.len() == 0 {
        seq![Seq::<char>::empty()]
    } else {
        let pre = spec_split(s.drop_last(), d);
        if s.last() == d {
            pre.push(Seq::<char>::empty())
        } else {
            pre.update(pre.len() - 1, pre.last().push(s.last()))
        }
    }
}

pub proof fn lemma_split_len(s: Seq<char>, d: char)
    ensures
        spec_split(s, d).len() >= 1,
    decreases s.len(),
{
    if s.len() > 0 {
        lemma_split_len(s.drop_last(), d);
    }
}

pub fn split_char(v: &Vec<char>, d: char) -> (r: Vec<Vec<char>>)
    ensures
        views_of(r@) == spec_split(v@, d),
{
    let mut done: Vec<Vec<char>> = Vec::new();
    let mut cur: Vec<char> = Vec::new();
    let mut i: usize = 0;
    while i < v.len()
        invariant
            0 <= i <= v@.len(),
            views_of(done@).push(cur@) =~= spec_split(v@.take(i as int), d),
        decreases v@.len() - i,
    {
        proof {
            assert(v@.take(i as int + 1).drop_last() =~= v@.take(i as int));
            assert(v@.take(i as int + 1).last() == v@[i as int]);
            lemma_split_len(v@.take(i as int), d);
        }
        let ghost prev = views_of(done@).push(cur@);
        if v[i] == d {
            done.push(cur);
            cur = Vec::new();
            proof {
                assert(views_of(done@).push(cur@) =~= prev.push(Seq::<char>::empty()));
            }
        } else {
            cur.push(v[i]);
            proof {
                assert(views_of(done@).push(cur@) =~= prev.update(
                    prev.len() - 1,
                    prev.last().push(v@[i as int]),
                ));
            }
        }
        i = i + 1;
    }
    proof {
        assert(v@.take(v@.len() as int) =~= v@);
    }
    done.push(cur);
    proof {
        assert(views_of(done@) =~= spec_split(v@, d));
    }
    done
}

/// A sequence without the delimiter splits to itself alone.
pub proof fn lemma_split_solo(p: Seq<char>, d: char)
    requires
        !p.contains(d),
    ensures
        spec_split(p, d) == seq![p],
    decreases p.len(),
{
    if p.len() == 0 {
        assert(p =~= Seq::<char>::empty());
        assert(spec_split(p, d) =~= seq![p]);
    } else {
        assert(!p.drop_last().contains(d)) by {
            if p.drop_last().contains(d) {
                let k = choose|k: int| 0 <= k < p.drop_last().len() && p.drop_last()[k] == d;
                assert(p[k] == d);
            }
        }
        lemma_split_solo(p.drop_last(), d);
        assert(p.last() != d);
        assert(spec_split(p, d) =~= seq![p.drop_last().push(p.last())]);
        assert(p.drop_last().push(p.last()) =~= p);
        assert(spec_split(p, d) =~= seq![p]);
    }
}

/// Splitting a delimited prefix off: the first part is exactly the prefix.
pub proof fn lemma_split_prefix(p: Seq<char>, rest: Seq<char>, d: char)
    requires
        !p.contains(d),
    ensures
        spec_split(p + seq![d] + rest, d) == seq![p] + spec_split(rest, d),
    decreases rest.len(),
{
    if rest.len() == 0 {
        let s = p + seq![d] + rest;
        assert(s.drop_last() =~= p);
        assert(s.last() == d);
        lemma_split_solo(p, d);
        assert(spec_split(s, d) =~= seq![p] + spec_split(rest, d));
    } else {
        let s = p + seq![d] + rest;
        let s0 = p + seq![d] + rest.drop_last();
        assert(s.drop_last() =~= s0);
        assert(s.last() == rest.last());
        lemma_split_prefix(p, rest.drop_last(), d);
        lemma_split_len(rest.drop_last(), d);
        if rest.last() == d {
            assert(spec_split(s, d) == (seq![p] + spec_split(rest.drop_last(), d)).push(
                Seq::<char>::empty(),
            ));
            assert(spec_split(rest, d) == spec_split(rest.drop_last(), d).push(
                Seq::<char>::empty(),
            ));
            assert((seq![p] + spec_split(rest.drop_last(), d)).push(Seq::<char>::empty()) =~= seq![
                p,
            ] + spec_split(rest.drop_last(), d).push(Seq::<char>::empty()));
        } else {
            let pre = seq![p] + spec_split(rest.drop_last(), d);
            assert(spec_split(s, d) == pre.update(pre.len() - 1, pre.last().push(rest.last())));
            let q = spec_split(rest.drop_last(), d);
            assert(pre.last() == q.last());
            assert(spec_split(rest, d) == q.update(q.len() - 1, q.last().push(rest.last())));
            assert(pre.update(pre.len() - 1, pre.last().push(rest.last())) =~= seq![p] + q.update(
                q.len() - 1,
                q.last().push(rest.last()),
            ));
        }
    }
}

/// Joining parts with a single separator character between them.
pub open spec fn spec_join(parts: Seq<Seq<char>>, sep: char) -> Seq<char>
    decreases parts.len(),
{
    if parts.len() == 0 {
        Seq::<char>::empty()
    } else if parts.len() == 1 {
        parts[0]
    } else {
        parts[0] + seq![sep] + spec_join(parts.drop_first(), sep)
    }
}

pub proof fn lemma_join_push(parts: Seq<Seq<char>>, sep: char, x: Seq<char>)
    requires
        parts.len() >= 1,
    ensures
        spec_join(parts.push(x), sep) == spec_join(parts, sep) + seq![sep] + x,
    decreases parts.len(),
{
    if parts.len() == 1 {
        assert(parts.push(x).drop_first() =~= seq![x]);
        assert(parts.push(x)[0] == parts[0]);
        assert(spec_join(seq![x], sep) == x);
    } else {
        lemma_join_push(parts.drop_first(), sep, x);
        assert(parts.push(x).drop_first() =~= parts.drop_first().push(x));
        assert(parts.push(x)[0] == parts[0]);
        assert(parts[0] + seq![sep] + (spec_join(parts.drop_first(), sep) + seq![sep] + x) =~= (
        parts[0] + seq![sep] + spec_join(parts.drop_first(), sep)) + seq![sep] + x);
    }
}

pub fn join_chars(parts: &Vec<Vec<char>>, sep: char) -> (r: Vec<char>)
    ensures
        r@ == spec_join(views_of(parts@), sep),
{
    let mut r: Vec<char> = Vec::new();
    let mut i: usize = 0;
    while i < parts.len()
        invariant
            0 <= i <= parts@.len(),
            r@ == spec_join(views_of(parts@).take(i as int), sep),
        decreases parts@.len() - i,
    {
        proof {
            assert(views_of(parts@).take(i as int + 1) =~= views_of(parts@).take(i as int).push(
                parts@[i as int]@,
            ));
        }
        if i > 0 {
            proof {
                lemma_join_push(views_of(parts@).take(i as int), sep, parts@[i as int]@);
            }
            r.push(sep);
            extend_chars(&mut r, &parts[i]);
        } else {
            extend_chars(&mut r, &parts[i]);
            proof {
                assert(views_of(parts@).take(1)[0] == parts@[0]@);
                assert(spec_join(views_of(parts@).take(1), sep) == parts@[0]@);
                assert(Seq::<char>::empty() + parts@[0]@ =~= parts@[0]@);
            }
        }
        i = i + 1;
    }
    proof {
        assert(views_of(parts@).take(parts@.len() as int) =~= views_of(parts@));
    }
    r
}

// ---------------------------------------------------------------------------
// Whitespace tokenization
// ---------------------------------------------------------------------------

/// Length of the maximal non-whitespace prefix.
pub open spec fn word_end(s: Seq<char>) -> int
    decreases s.len(),
{
    if s.len() == 0 || is_ws(s[0]) {
        0
    } else {
        1 + word_end(s.drop_first())
    }
}

pub proof fn lemma_word_end_bounds(s: Seq<char>)
    ensures
        0 <= word_end(s) <= s.len(),
        s.len() > 0 && !is_ws(s[0]) ==> word_end(s) >= 1,
    decreases s.len(),
{
    if s.len() > 0 && !is_ws(s[0]) {
        lemma_word_end_bounds(s.drop_first());
    }
}

/// The maximal whitespace-separated words, in order, all non-empty.
pub open spec fn spec_words(s: Seq<char>) -> Seq<Seq<char>>
    decreases s.len(),
    via spec_words_decreases
{
    if s.len() == 0 {
        Seq::<Seq<char>>::empty()
    } else if is_ws(s[0]) {
        spec_words(s.drop_first())
    } else {
        seq![s.take(word_end(s))] + spec_words(s.skip(word_end(s)))
    }
}

#[via_fn]
proof fn spec_words_decreases(s: Seq<char>) {
    if s.len() > 0 && !is_ws(s[0]) {
        lemma_word_end_bounds(s);
    }
}

/// Characterizes `word_end` by its endpoints.
proof fn lemma_word_end_at(s: Seq<char>, k: int)
    requires
        0 <= k <= s.len(),
        forall|m: int| 0 <= m < k ==> !is_ws(s[m]),
        k == s.len() || is_ws(s[k]),
    ensures
        word_end(s) == k,
    decreases k,
{
    if k == 0 {
    } else {
        assert(!is_ws(s[0]));
        lemma_word_end_at(s.drop_first(), k - 1);
    }
}

pub fn split_ws(v: &Vec<char>) -> (r: Vec<Vec<char>>)
    ensures
        views_of(r@) == spec_words(v@),
{
    let mut r: Vec<Vec<char>> = Vec::new();
    let mut i: usize = 0;
    proof {
        assert(v@.skip(0) =~= v@);
        assert(views_of(r@) + spec_words(v@) =~= spec_words(v@));
    }
    while i < v.len()
        invariant
            0 <= i <= v@.len(),
            views_of(r@) + spec_words(v@.skip(i as int)) == spec_words(v@),
        decreases v@.len() - i,
    {
        if is_ws_char(v[i]) {
            proof {
                assert(v@.skip(i as int)[0] == v@[i as int]);
                assert(v@.skip(i as int).drop_first() =~= v@.skip(i as int + 1));
            }
            i = i + 1;
        } else {
            let ghost tail = v@.skip(i as int);
            let mut j: usize = i + 1;
            while j < v.len() && !is_ws_char(v[j])
                invariant
                    0 <= i < j <= v@.len(),
                    forall|m: int| i <= m < j ==> !is_ws(v@[m]),
                decreases v@.len() - j,
            {
                j = j + 1;
            }
            proof {
                assert(forall|m: int| 0 <= m < j - i ==> tail[m] == v@[i + m]);
                if j < v@.len() {
                    assert(tail[j - i] == v@[j as int]);
                }
                lemma_word_end_at(tail, j - i);
                assert(tail.take(j - i) =~= v@.subrange(i as int, j as int));
                assert(tail.skip(j - i) =~= v@.skip(j as int));
            }
            let w = copy_range(v, i, j);
            let ghost prev = views_of(r@);
            r.push(w);
            proof {
                assert(views_of(r@) =~= prev.push(v@.subrange(i as int, j as int)));
                assert(views_of(r@) + spec_words(v@.skip(j as int)) =~= prev + (seq![
                    v@.subrange(i as int, j as int),
                ] + spec_words(v@.skip(j as int))));
            }
            i = j;
        }
    }
    proof {
        assert(v@.skip(v@.len() as int) =~= Seq::<char>::empty());
        assert(views_of(r@) + spec_words(v@.skip(v@.len() as int)) =~= views_of(r@));
    }
    r
}

// ---------------------------------------------------------------------------
// Substring search and removal
// ---------------------------------------------------------------------------

pub open spec fn spec_match_at(s: Seq<char>, pat: Seq<char>, i: int) -> bool {
    0 <= i && i + pat.len() <= s.len() && s.subrange(i, i + pat.len()) == pat
}

/// Whether `pat` occurs anywhere inside `s`.
pub open spec fn spec_contains(s: Seq<char>, pat: Seq<char>) -> bool {
    exists|i: int| spec_match_at(s, pat, i)
}

fn match_at(hay: &Vec<char>, pat: &Vec<char>, i: usize) -> (r: bool)
    requires
        i + pat@.len() <= hay@.len(),
    ensures
        r == spec_match_at(hay@, pat@, i as int),
{
    let n = hay.len();
    let mut k: usize = 0;
    while k < pat.len()
        invariant
            n == hay@.len(),
            i + pat@.len() <= hay@.len(),
            0 <= k <= pat@.len(),
            forall|m: int| 0 <= m < k ==> hay@[i + m] == pat@[m],
        decreases pat@.len() - k,
    {
        if hay[i + k] != pat[k] {
            proof {
                assert(hay@.subrange(i as int, i + pat@.len())[k as int] == hay@[i + k]);
            }
            return false;
        }
        k = k + 1;
    }
    proof {
        assert(hay@.subrange(i as int, i + pat@.len()) =~= pat@);
    }
    true
}

pub fn contains_sub(hay: &Vec<char>, pat: &Vec<char>) -> (r: bool)
    ensures
        r == spec_contains(hay@, pat@),
{
    if pat.len() > hay.len() {
        return false;
    }
    let last = hay.len() - pat.len();
    let mut i: usize = 0;
    while i < last
        invariant
            pat@.len() <= hay@.len(),
            last == hay@.len() - pat@.len(),
            0 <= i <= last,
            forall|m: int| 0 <= m < i ==> !spec_match_at(hay@, pat@, m),
        decreases last - i,
    {
        if match_at(hay, pat, i) {
            return true;
        }
        i = i + 1;
    }
    if match_at(hay, pat, last) {
        return true;
    }
    false
}

/// What deleting every occurrence of `pat`, scanning left to right without
/// overlap, yields.
pub open spec fn spec_remove_pat(s: Seq<char>, pat: Seq<char>) -> Seq<char>
    decreases s.len(),
    when pat.len() > 0
{
    if s.len() < pat.len() {
        s
    } else if s.take(pat.len() as int) == pat {
        spec_remove_pat(s.skip(pat.len() as int), pat)
    } else {
        seq![s[0]] + spec_remove_pat(s.drop_first(), pat)
    }
}

pub fn remove_pat(v: &Vec<char>, pat: &Vec<char>) -> (r: Vec<char>)
    requires
        pat@.len() > 0,
    ensures
        r@ == spec_remove_pat(v@, pat@),
{
    let mut out: Vec<char> = Vec::new();
    let mut i: usize = 0;
    proof {
        assert(v@.skip(0) =~= v@);
        assert(out@ + spec_remove_pat(v@, pat@) =~= spec_remove_pat(v@, pat@));
    }
    while i < v.len()
        invariant
            pat@.len() > 0,
            0 <= i <= v@.len(),
            out@ + spec_remove_pat(v@.skip(i as int), pat@) == spec_remove_pat(v@, pat@),
        decreases v@.len() - i,
    {
        let ghost tail = v@.skip(i as int);
        if pat.len() <= v.len() - i && match_at(v, pat, i) {
            proof {
                assert(tail.take(pat@.len() as int) =~= v@.subrange(i as int, i + pat@.len()));
                assert(tail.skip(pat@.len() as int) =~= v@.skip(i + pat@.len()));
            }
            i = i + pat.len();
        } else {
            proof {
                assert(tail[0] == v@[i as int]);
                assert(tail.drop_first() =~= v@.skip(i as int + 1));
                if i + pat@.len() <= v@.len() {
                    assert(tail.take(pat@.len() as int) =~= v@.subrange(
                        i as int,
                        i + pat@.len(),
                    ));
                } else {
                    assert(tail.len() < pat@.len());
                }
                assert(out@.push(v@[i as int]) + spec_remove_pat(v@.skip(i as int + 1), pat@)
                    =~= out@ + (seq![tail[0]] + spec_remove_pat(tail.drop_first(), pat@)));
            }
            out.push(v[i]);
            i = i + 1;
        }
    }
    proof {
        assert(v@.skip(v@.len() as int) =~= Seq::<char>::empty());
        assert(out@ + spec_remove_pat(v@.skip(v@.len() as int), pat@) =~= out@);
    }
    out
}

// ---------------------------------------------------------------------------
// Greedy word-wrap
// ---------------------------------------------------------------------------

/// Greedy wrapping: words are packed into the open line while the line, a
/// separating space and the next word still stay inside the width; a word is
/// never divided, so a single word longer than the width stands alone.
pub open spec fn spec_wrap_rec(
    ws: Seq<Seq<char>>,
    width: int,
    cur: Seq<char>,
    started: bool,
) -> Seq<Seq<char>>
    decreases ws.len(),
{
    if ws.len() == 0 {
        if started {
            seq![cur]
        } else {
            Seq::<Seq<char>>::empty()
        }
    } else {
        let w = ws[0];
        if !started {
            spec_wrap_rec(ws.drop_first(), width, w, true)
        } else if cur.len() + w.len() + 1 >= width {
            seq![cur] + spec_wrap_rec(ws.drop_first(), width, w, true)
        } else {
            spec_wrap_rec(ws.drop_first(), width, cur + seq![' '] + w, true)
        }
    }
}

pub open spec fn spec_wrap(ws: Seq<Seq<char>>, width: int) -> Seq<Seq<char>> {
    spec_wrap_rec(ws, width, Seq::<char>::empty(), false)
}

pub fn wrap_words(words: &Vec<Vec<char>>, width: usize) -> (r: Vec<Vec<char>>)
    ensures
        views_of(r@) == spec_wrap(views_of(words@), width as int),
{
    let ghost all = views_of(words@);
    let mut lines: Vec<Vec<char>> = Vec::new();
    let mut cur: Vec<char> = Vec::new();
    let mut started: bool = false;
    let mut i: usize = 0;
    proof {
        assert(words@.skip(0) =~= words@);
        assert(all.skip(0) =~= all);
        assert(views_of(lines@) + spec_wrap_rec(all, width as int, cur@, false) =~= spec_wrap(
            all,
            width as int,
        ));
    }
    while i < words.len()
        invariant
            all == views_of(words@),
            0 <= i <= words@.len(),
            views_of(lines@) + spec_wrap_rec(all.skip(i as int), width as int, cur@, started)
                == spec_wrap(all, width as int),
        decreases words@.len() - i,
    {
        proof {
            assert(all.skip(i as int)[0] == words@[i as int]@);
            assert(all.skip(i as int).drop_first() =~= all.skip(i as int + 1));
        }
        let w = &words[i];
        if !started {
            cur = copy_range(w, 0, w.len());
            started = true;
            proof {
                assert(cur@ =~= words@[i as int]@);
            }
        } else if cur.len() as u128 + w.len() as u128 + 1 >= width as u128 {
            let ghost prev = views_of(lines@);
            let ghost curv = cur@;
            lines.push(cur);
            cur = copy_range(w, 0, w.len());
            proof {
                assert(cur@ =~= words@[i as int]@);
                assert(views_of(lines@) =~= prev.push(curv));
                assert(prev.push(curv) + spec_wrap_rec(
                    all.skip(i as int + 1),
                    width as int,
                    cur@,
                    true,
                ) =~= prev + (seq![curv] + spec_wrap_rec(
                    all.skip(i as int + 1),
                    width as int,
                    cur@,
                    true,
                )));
            }
        } else {
            let ghost curv = cur@;
            cur.push(' ');
            extend_chars(&mut cur, w);
            proof {
                assert(cur@ =~= curv + seq![' '] + words@[i as int]@);
            }
        }
        i = i + 1;
    }
    proof {
        assert(all.skip(words@.len() as int) =~= Seq::<Seq<char>>::empty());
    }
    if started {
        let ghost prev = views_of(lines@);
        lines.push(cur);
        proof {
            assert(views_of(lines@) =~= prev.push(cur@));
            assert(prev.push(cur@) =~= prev + seq![cur@]);
        }
    }
    proof {
        assert(views_of(lines@) =~= spec_wrap(all, width as int));
    }
    lines
}

/// Every produced line is shorter than the width, except a line that is one
/// single word: an overlong word stands alone, unmodified.
pub proof fn lemma_wrap_line_fits(ws: Seq<Seq<char>>, width: int)
    requires
        width >= 1,
    ensures
        forall|k: int|
            0 <= k < spec_wrap(ws, width).len() ==> (#[trigger] spec_wrap(ws, width)[k]).len()
                < width || exists|i: int| 0 <= i < ws.len() && spec_wrap(ws, width)[k] == ws[i],
{
    lemma_wrap_rec_fits(ws, width, Seq::<char>::empty(), false);
    assert forall|k: int| 0 <= k < spec_wrap(ws, width).len() implies (#[trigger] spec_wrap(
        ws,
        width,
    )[k]).len() < width || exists|i: int|
        0 <= i < ws.len() && spec_wrap(ws, width)[k] == ws[i] by {
        let l = spec_wrap(ws, width)[k];
        if l == Seq::<char>::empty() {
            assert(l.len() < width);
        }
    }
}

proof fn lemma_wrap_rec_fits(ws: Seq<Seq<char>>, width: int, cur: Seq<char>, started: bool)
    ensures
        forall|k: int|
            0 <= k < spec_wrap_rec(ws, width, cur, started).len() ==> {
                let l = #[trigger] spec_wrap_rec(ws, width, cur, started)[k];
                l.len() < width || l == cur || exists|i: int| 0 <= i < ws.len() && l == ws[i]
            },
    decreases ws.len(),
{
    if ws.len() == 0 {
    } else {
        let w = ws[0];
        let rest = ws.drop_first();
        assert(forall|i: int| 0 <= i < rest.len() ==> rest[i] == ws[i + 1]);
        if !started {
            lemma_wrap_rec_fits(rest, width, w, true);
            assert forall|k: int| 0 <= k < spec_wrap_rec(ws, width, cur, started).len() implies {
                let l = #[trigger] spec_wrap_rec(ws, width, cur, started)[k];
                l.len() < width || l == cur || exists|i: int| 0 <= i < ws.len() && l == ws[i]
            } by {
                let l = spec_wrap_rec(ws, width, cur, started)[k];
                assert(l == spec_wrap_rec(rest, width, w, true)[k]);
                if !(l.len() < width) && l != w && !(exists|i: int|
                    0 <= i < rest.len() && l == rest[i])  {
                } else if l == w {
                    assert(l == ws[0]);
                } else if exists|i: int| 0 <= i < rest.len() && l == rest[i] {
                    let i = choose|i: int| 0 <= i < rest.len() && l == rest[i];
                    assert(l == ws[i + 1]);
                }
            }
        } else if cur.len() + w.len() + 1 >= width {
            lemma_wrap_rec_fits(rest, width, w, true);
            assert forall|k: int| 0 <= k < spec_wrap_rec(ws, width, cur, started).len() implies {
                let l = #[trigger] spec_wrap_rec(ws, width, cur, started)[k];
                l.len() < width || l == cur || exists|i: int| 0 <= i < ws.len() && l == ws[i]
            } by {
                let l = spec_wrap_rec(ws, width, cur, started)[k];
                if k == 0 {
                    assert(l == cur);
                } else {
                    assert(l == spec_wrap_rec(rest, width, w, true)[k - 1]);
                    if l == w {
                        assert(l == ws[0]);
                    } else if exists|i: int| 0 <= i < rest.len() && l == rest[i] {
                        let i = choose|i: int| 0 <= i < rest.len() && l == rest[i];
                        assert(l == ws[i + 1]);
                    }
                }
            }
        } else {
            let cur2 = cur + seq![' '] + w;
            assert(cur2.len() < width);
            lemma_wrap_rec_fits(rest, width, cur2, true);
            assert forall|k: int| 0 <= k < spec_wrap_rec(ws, width, cur, started).len() implies {
                let l = #[trigger] spec_wrap_rec(ws, width, cur, started)[k];
                l.len() < width || l == cur || exists|i: int| 0 <= i < ws.len() && l == ws[i]
            } by {
                let l = spec_wrap_rec(ws, width, cur, started)[k];
                assert(l == spec_wrap_rec(rest, width, cur2, true)[k]);
                if l == cur2 {
                    assert(l.len() < width);
                } else if exists|i: int| 0 <= i < rest.len() && l == rest[i] {
                    let i = choose|i: int| 0 <= i < rest.len() && l == rest[i];
                    assert(l == ws[i + 1]);
                }
            }
        }
    }
}

proof fn lemma_wrap_rec_started_len(ws: Seq<Seq<char>>, width: int, cur: Seq<char>)
    ensures
        spec_wrap_rec(ws, width, cur, true).len() >= 1,
    decreases ws.len(),
{
    if ws.len() > 0 {
        let w = ws[0];
        if cur.len() + w.len() + 1 >= width {
            lemma_wrap_rec_started_len(ws.drop_first(), width, w);
        } else {
            lemma_wrap_rec_started_len(ws.drop_first(), width, cur + seq![' '] + w);
        }
    }
}

/// Wrapping loses, splits and reorders nothing: joining the wrapped lines
/// with single spaces gives back the words joined with single spaces.
pub proof fn lemma_wrap_preserves_words(ws: Seq<Seq<char>>, width: int)
    ensures
        spec_join(spec_wrap(ws, width), ' ') == spec_join(ws, ' '),
{
    if ws.len() == 0 {
    } else {
        lemma_wrap_rec_join(ws.drop_first(), width, ws[0]);
        assert(seq![ws[0]] + ws.drop_first() =~= ws);
    }
}

proof fn lemma_wrap_rec_join(ws: Seq<Seq<char>>, width: int, cur: Seq<char>)
    ensures
        spec_join(spec_wrap_rec(ws, width, cur, true), ' ') == spec_join(seq![cur] + ws, ' '),
    decreases ws.len(),
{
    if ws.len() == 0 {
        assert(seq![cur] + ws =~= seq![cur]);
        assert(spec_join(seq![cur], ' ') == cur);
        assert(spec_join(seq![cur], ' ') == spec_join(seq![cur] + ws, ' '));
    } else {
        let w = ws[0];
        let rest = ws.drop_first();
        assert((seq![cur] + ws).drop_first() =~= ws);
        assert((seq![cur] + ws)[0] == cur);
        assert(spec_join(seq![cur] + ws, ' ') == cur + seq![' '] + spec_join(ws, ' '));
        if cur.len() + w.len() + 1 >= width {
            lemma_wrap_rec_join(rest, width, w);
            let tail = spec_wrap_rec(rest, width, w, true);
            lemma_wrap_rec_started_len(rest, width, w);
            assert((seq![cur] + tail).drop_first() =~= tail);
            assert((seq![cur] + tail)[0] == cur);
            assert(spec_join(seq![cur] + tail, ' ') == cur + seq![' '] + spec_join(tail, ' '));
            assert(spec_join(seq![w] + rest, ' ') == spec_join(ws, ' ')) by {
                assert(seq![w] + rest =~= ws);
            }
        } else {
            let cur2 = cur + seq![' '] + w;
            lemma_wrap_rec_join(rest, width, cur2);
            if rest.len() == 0 {
                assert(seq![cur2] + rest =~= seq![cur2]);
                assert(spec_join(seq![cur2], ' ') == cur2);
                assert(ws =~= seq![w]);
                assert(spec_join(ws, ' ') == w);
            } else {
                assert((seq![cur2] + rest).drop_first() =~= rest);
                assert((seq![cur2] + rest)[0] == cur2);
                assert(spec_join(seq![cur2] + rest, ' ') == cur2 + seq![' '] + spec_join(
                    rest,
                    ' ',
                ));
                assert((seq![w] + rest).drop_first() =~= rest);
                assert((seq![w] + rest)[0] == w);
                assert(seq![w] + rest =~= ws);
                assert(spec_join(ws, ' ') == w + seq![' '] + spec_join(rest, ' '));
                assert(cur2 + seq![' '] + spec_join(rest, ' ') =~= cur + seq![' '] + (w + seq![' ']
                    + spec_join(rest, ' ')));
            }
        }
    }
}

// ---------------------------------------------------------------------------
// Whitespace normalization
// ---------------------------------------------------------------------------

/// Collapsed whitespace: the words joined by single spaces, ends trimmed.
pub open spec fn spec_norm_ws(s: Seq<char>) -> Seq<char> {
    spec_join(spec_words(s), ' ')
}

pub fn normalize_ws(v: &Vec<char>) -> (r: Vec<char>)
    ensures
        r@ == spec_norm_ws(v@),
{
    let words = split_ws(v);
    join_chars(&words, ' ')
}

/// Line-by-line cleaning: split on newlines, trim each line, drop the blank
/// ones, and join the rest with single spaces.
pub open spec fn spec_kept_lines(ls: Seq<Seq<char>>) -> Seq<Seq<char>>
    decreases ls.len(),
{
    if ls.len() == 0 {
        Seq::<Seq<char>>::empty()
    } else {
        let pre = spec_kept_lines(ls.drop_last());
        if spec_trim(ls.last()).len() > 0 {
            pre.push(spec_trim(ls.last()))
        } else {
            pre
        }
    }
}

pub open spec fn spec_norm_lines(s: Seq<char>) -> Seq<char> {
    spec_join(spec_kept_lines(spec_split(s, '\n')), ' ')
}

pub fn normalize_lines(v: &Vec<char>) -> (r: Vec<char>)
    ensures
        r@ == spec_norm_lines(v@),
{
    let parts = split_char(v, '\n');
    let mut kept: Vec<Vec<char>> = Vec::new();
    let mut i: usize = 0;
    proof {
        assert(views_of(parts@).take(0) =~= Seq::<Seq<char>>::empty());
        assert(views_of(kept@) =~= spec_kept_lines(views_of(parts@).take(0)));
    }
    while i < parts.len()
        invariant
            0 <= i <= parts@.len(),
            views_of(kept@) == spec_kept_lines(views_of(parts@).take(i as int)),
        decreases parts@.len() - i,
    {
        proof {
            assert(views_of(parts@).take(i as int + 1).drop_last() =~= views_of(parts@).take(
                i as int,
            ));
            assert(views_of(parts@).take(i as int + 1).last() == parts@[i as int]@);
        }
        let t = trim_chars(&parts[i]);
        if t.len() > 0 {
            let ghost prev = views_of(kept@);
            kept.push(t);
            proof {
                assert(views_of(kept@) =~= prev.push(spec_trim(parts@[i as int]@)));
            }
        }
        i = i + 1;
    }
    proof {
        assert(views_of(parts@).take(parts@.len() as int) =~= views_of(parts@));
    }
    join_chars(&kept, ' ')
}

/// Index of the first occurrence of `pat` inside `s`, if any.
pub open spec fn spec_find(s: Seq<char>, pat: Seq<char>) -> Option<int>
    decreases s.len(),
{
    if pat.len() == 0 {
        Some(0int)
    } else if s.len() < pat.len() {
        None
    } else if s.take(pat.len() as int) == pat {
        Some(0int)
    } else {
        match spec_find(s.drop_first(), pat) {
            Some(j) => Some(j + 1),
            None => None,
        }
    }
}

proof fn lemma_find_at(s: Seq<char>, pat: Seq<char>, k: int)
    requires
        spec_match_at(s, pat, k),
        forall|m: int| 0 <= m < k ==> !spec_match_at(s, pat, m),
    ensures
        spec_find(s, pat) == Some(k),
    decreases k,
{
    assert(s.take(pat.len() as int) =~= s.subrange(0, pat.len() as int));
    if pat.len() == 0 {
        assert(s.subrange(0, 0) =~= pat);
        assert(spec_match_at(s, pat, 0));
        assert(k == 0);
    } else if k == 0 {
    } else {
        assert(!spec_match_at(s, pat, 0));
        assert(s.take(pat.len() as int) != pat);
        let t = s.drop_first();
        assert(t.subrange(k - 1, k - 1 + pat.len()) =~= s.subrange(k, k + pat.len()));
        assert(spec_match_at(t, pat, k - 1));
        assert forall|m: int| 0 <= m < k - 1 implies !spec_match_at(t, pat, m) by {
            assert(!spec_match_at(s, pat, m + 1));
            if 0 <= m && m + pat.len() <= t.len() {
                assert(t.subrange(m, m + pat.len()) =~= s.subrange(m + 1, m + 1 + pat.len()));
            }
        }
        lemma_find_at(t, pat, k - 1);
    }
}

proof fn lemma_find_none(s: Seq<char>, pat: Seq<char>)
    requires
        forall|m: int| !spec_match_at(s, pat, m),
    ensures
        spec_find(s, pat) is None,
    decreases s.len(),
{
    if pat.len() == 0 {
        assert(s.subrange(0, 0) =~= pat);
        assert(spec_match_at(s, pat, 0));
    } else if s.len() < pat.len() {
    } else {
        assert(!spec_match_at(s, pat, 0));
        assert(s.take(pat.len() as int) =~= s.subrange(0, pat.len() as int));
        let t = s.drop_first();
        assert forall|m: int| !spec_match_at(t, pat, m) by {
            assert(!spec_match_at(s, pat, m + 1));
            if 0 <= m && m + pat.len() <= t.len() {
                assert(t.subrange(m, m + pat.len()) =~= s.subrange(m + 1, m + 1 + pat.len()));
            }
        }
        lemma_find_none(t, pat);
    }
}

pub fn find_sub(hay: &Vec<char>, pat: &Vec<char>) -> (r: Option<usize>)
    ensures
        match r {
            Some(i) => spec_find(hay@, pat@) == Some(i as int) && i + pat@.len() <= hay@.len(),
            None => spec_find(hay@, pat@) is None,
        },
{
    if pat.len() > hay.len() {
        proof {
            assert forall|m: int| !spec_match_at(hay@, pat@, m) by {}
            lemma_find_none(hay@, pat@);
        }
        return None;
    }
    let last = hay.len() - pat.len();
    let mut i: usize = 0;
    while i < last
        invariant
            pat@.len() <= hay@.len(),
            last == hay@.len() - pat@.len(),
            0 <= i <= last,
            forall|m: int| 0 <= m < i ==> !spec_match_at(hay@, pat@, m),
        decreases last - i,
    {
        if match_at(hay, pat, i) {
            proof {
                lemma_find_at(hay@, pat@, i as int);
            }
            return Some(i);
        }
        i = i + 1;
    }
    if match_at(hay, pat, last) {
        proof {
            lemma_find_at(hay@, pat@, last as int);
        }
        return Some(last);
    }
    proof {
        assert forall|m: int| !spec_match_at(hay@, pat@, m) by {
            if 0 <= m && m + pat@.len() <= hay@.len() {
                assert(m <= last);
            }
        }
        lemma_find_none(hay@, pat@);
    }
    None
}

/// Strings of a vector of character vectors, character for character.
pub fn strings_of(v: &Vec<Vec<char>>) -> (r: Vec<String>)
    ensures
        r@.map_values(|s: String| s@) == views_of(v@),
{
    let mut r: Vec<String> = Vec::new();
    let mut i: usize = 0;
    while i < v.len()
        invariant
            0 <= i <= v@.len(),
            r@.map_values(|s: String| s@) == views_of(v@).take(i as int),
        decreases v@.len() - i,
    {
        let ghost prev = r@.map_values(|s: String| s@);
        r.push(chars_to_string(&v[i]));
        proof {
            assert(r@.map_values(|s: String| s@) =~= prev.push(v@[i as int]@));
            assert(prev.push(v@[i as int]@) =~= views_of(v@).take(i as int + 1));
        }
        i = i + 1;
    }
    proof {
        assert(views_of(v@).take(v@.len() as int) =~= views_of(v@));
    }
    r
}

/// Greedy word-wrap of a text: tokenize on whitespace, then pack lines.
pub fn wrap_text(text: &str, width: usize) -> (r: Vec<String>)
    ensures
        r@.map_values(|s: String| s@) == spec_wrap(spec_words(text@), width as int),
{
    let v = str_chars(text);
    let words = split_ws(&v);
    let lines = wrap_words(&words, width);
    strings_of(&lines)
}

/// Length of the maximal digit prefix.
pub open spec fn digit_prefix_len(s: Seq<char>) -> int
    decreases s.len(),
{
    if s.len() == 0 || !is_digit(s[0]) {
        0
    } else {
        1 + digit_prefix_len(s.drop_first())
    }
}

proof fn lemma_digit_prefix_at(s: Seq<char>, k: int)
    requires
        0 <= k <= s.len(),
        forall|m: int| 0 <= m < k ==> is_digit(s[m]),
        k == s.len() || !is_digit(s[k]),
    ensures
        digit_prefix_len(s) == k,
    decreases k,
{
    if k == 0 {
    } else {
        assert(is_digit(s[0]));
        lemma_digit_prefix_at(s.drop_first(), k - 1);
    }
}

/// The leading numeral of a text: its maximal digit prefix, parsed; `None`
/// when the text does not begin with a digit or the value does not fit.
pub open spec fn spec_leading_numeral(s: Seq<char>) -> Option<usize> {
    if digit_prefix_len(s) == 0 {
        None
    } else {
        spec_parse_usize(s.take(digit_prefix_len(s)))
    }
}

pub fn leading_numeral(v: &Vec<char>) -> (r: Option<usize>)
    ensures
        r == spec_leading_numeral(v@),
{
    let mut k: usize = 0;
    while k < v.len() && is_digit_char(v[k])
        invariant
            0 <= k <= v@.len(),
            forall|m: int| 0 <= m < k ==> is_digit(v@[m]),
        decreases v@.len() - k,
    {
        k = k + 1;
    }
    proof {
        lemma_digit_prefix_at(v@, k as int);
    }
    if k == 0 {
        None
    } else {
        let prefix = copy_range(v, 0, k);
        proof {
            assert(prefix@ =~= v@.take(k as int));
        }
        parse_usize(&prefix)
    }
}

} // verus!
