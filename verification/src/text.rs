//! Character-level text scanning shared by the procfs and sysfs parsers:
//! whitespace classification, whitespace-separated fields, line splitting,
//! trimming and unsigned decimal parsing, each stated as a spec function
//! over `Seq<char>` and implemented over a `Vec<char>` index range.

use vstd::prelude::*;
use vstd::string::*;

verus! {

/// Unicode `White_Space`, the set `char::is_whitespace` accepts.
pub open spec fn is_ws(c: char) -> bool {
    let u = c as u32;
    ||| 9 <= u <= 13
    ||| u == 32
    ||| u == 0x85
    ||| u == 0xA0
    ||| u == 0x1680
    ||| 0x2000 <= u <= 0x200A
    ||| u == 0x2028
    ||| u == 0x2029
    ||| u == 0x202F
    ||| u == 0x205F
    ||| u == 0x3000
}

pub fn is_whitespace(c: char) -> (b: bool)
    ensures
        b == is_ws(c),
{
    let u = c as u32;
    (9 <= u && u <= 13) || u == 32 || u == 0x85 || u == 0xA0 || u == 0x1680 || (0x2000 <= u
        && u <= 0x200A) || u == 0x2028 || u == 0x2029 || u == 0x202F || u == 0x205F || u == 0x3000
}

/// Length of the longest prefix of `s` containing no character that `stop` accepts.
pub open spec fn run_until(s: Seq<char>, stop: spec_fn(char) -> bool) -> nat
    decreases s.len(),
{
    if s.len() == 0 || stop(s[0]) {
        0
    } else {
        1 + run_until(s.drop_first(), stop)
    }
}

pub proof fn lemma_run_until_bound(s: Seq<char>, stop: spec_fn(char) -> bool)
    ensures
        run_until(s, stop) <= s.len(),
        s.len() > 0 && !stop(s[0]) ==> run_until(s, stop) >= 1,
        run_until(s, stop) < s.len() ==> stop(s[run_until(s, stop) as int]),
        forall|k: int| 0 <= k < run_until(s, stop) ==> !stop(#[trigger] s[k]),
    decreases s.len(),
{
    if s.len() > 0 && !stop(s[0]) {
        lemma_run_until_bound(s.drop_first(), stop);
        assert forall|k: int| 0 <= k < run_until(s, stop) implies !stop(#[trigger] s[k]) by {
            if k > 0 {
                assert(s[k] == s.drop_first()[k - 1]);
            }
        }
    }
}

/// A run of non-stop characters from `i` to `j` that ends at a stop character
/// or at the end of `s` has length `j - i`.
pub proof fn lemma_run_until_at(s: Seq<char>, stop: spec_fn(char) -> bool, i: int, j: int)
    requires
        0 <= i <= j <= s.len(),
        forall|k: int| i <= k < j ==> !stop(#[trigger] s[k]),
        j == s.len() || stop(s[j]),
    ensures
        run_until(s.subrange(i, s.len() as int), stop) == j - i,
    decreases j - i,
{
    let t = s.subrange(i, s.len() as int);
    if i < j {
        lemma_run_until_at(s, stop, i + 1, j);
        assert(t.drop_first() =~= s.subrange(i + 1, s.len() as int));
        assert(t[0] == s[i]);
    } else if j < s.len() {
        assert(t[0] == s[j]);
    }
}

/// A run that stops inside `a` is not lengthened by what follows `a`; a run
/// that covers all of `a` ends there when `b` starts with a stop character.
pub proof fn lemma_run_until_concat(a: Seq<char>, b: Seq<char>, stop: spec_fn(char) -> bool)
    requires
        run_until(a, stop) < a.len() || b.len() == 0 || stop(b[0]),
    ensures
        run_until(a + b, stop) == run_until(a, stop),
{
    let n = run_until(a, stop) as int;
    let ab = a + b;
    lemma_run_until_bound(a, stop);
    assert forall|k: int| 0 <= k < n implies !stop(#[trigger] ab[k]) by {
        assert(ab[k] == a[k]);
    }
    if n < a.len() {
        assert(ab[n] == a[n]);
    } else if b.len() > 0 {
        assert(ab[n] == b[0]);
    }
    lemma_run_until_at(ab, stop, 0, n);
    assert(ab.subrange(0, ab.len() as int) =~= ab);
}

/// The whitespace-separated fields of `s`, as `str::split_whitespace` yields them.
pub open spec fn ws_tokens(s: Seq<char>) -> Seq<Seq<char>>
    decreases s.len(),
{
    if s.len() == 0 {
        seq![]
    } else if is_ws(s[0]) {
        ws_tokens(s.drop_first())
    } else {
        let n = run_until(s, |c: char| is_ws(c));
        proof {
            lemma_run_until_bound(s, |c: char| is_ws(c));
        }
        seq![s.take(n as int)] + ws_tokens(s.skip(n as int))
    }
}

/// The lines of `s`, as `str::lines` yields them: split at `'\n'`, a `'\r'`
/// right before the `'\n'` dropped, no empty line after a final `'\n'`.
pub open spec fn text_lines(s: Seq<char>) -> Seq<Seq<char>>
    decreases s.len(),
{
    if s.len() == 0 {
        seq![]
    } else {
        let n = run_until(s, |c: char| c == '\n');
        if n < s.len() {
            seq![strip_cr(s.take(n as int))] + text_lines(s.skip(n + 1 as int))
        } else {
            seq![s]
        }
    }
}

/// No field spans the place where `a` and `b` meet when either side of it
/// is whitespace (or missing): the fields of `a + b` are those of `a`, then
/// those of `b`.
pub proof fn lemma_ws_tokens_concat(a: Seq<char>, b: Seq<char>)
    requires
        a.len() == 0 || b.len() == 0 || is_ws(a.last()) || is_ws(b[0]),
    ensures
        ws_tokens(a + b) == ws_tokens(a) + ws_tokens(b),
    decreases a.len(),
{
    let ws = |c: char| is_ws(c);
    if a.len() == 0 {
        assert(a + b =~= b);
        assert(ws_tokens(a) + ws_tokens(b) =~= ws_tokens(b));
    } else if b.len() == 0 {
        assert(a + b =~= a);
        assert(ws_tokens(a) + ws_tokens(b) =~= ws_tokens(a));
    } else if is_ws(a[0]) {
        let ab = a + b;
        assert(ab[0] == a[0]);
        assert(ab.drop_first() =~= a.drop_first() + b);
        if a.len() > 1 {
            assert(a.drop_first().last() == a.last());
        }
        lemma_ws_tokens_concat(a.drop_first(), b);
    } else {
        let ab = a + b;
        assert(ab[0] == a[0]);
        lemma_run_until_bound(a, ws);
        let n = run_until(a, ws) as int;
        if n < a.len() {
            lemma_run_until_concat(a, b, ws);
            assert(ab.take(n) =~= a.take(n));
            assert(ab.skip(n) =~= a.skip(n) + b);
            assert(a.skip(n).last() == a.last());
            lemma_ws_tokens_concat(a.skip(n), b);
            assert(ws_tokens(a) == seq![a.take(n)] + ws_tokens(a.skip(n)));
            assert(ws_tokens(ab) == seq![ab.take(n)] + ws_tokens(ab.skip(n)));
            assert(ws_tokens(ab) =~= ws_tokens(a) + ws_tokens(b));
        } else {
            assert(!is_ws(a[a.len() - 1]));
            lemma_run_until_concat(a, b, ws);
            assert(ab.take(n) =~= a);
            assert(ab.skip(n) =~= b);
            assert(a.take(n) =~= a);
            assert(a.skip(n) =~= Seq::<char>::empty());
            assert(ws_tokens(a) == seq![a.take(n)] + ws_tokens(a.skip(n)));
            assert(ws_tokens(a) =~= seq![a]);
            assert(ws_tokens(ab) =~= ws_tokens(a) + ws_tokens(b));
        }
    }
}

/// A non-empty run of non-whitespace characters is a single field.
pub proof fn lemma_ws_tokens_single(t: Seq<char>)
    requires
        t.len() > 0,
        forall|k: int| 0 <= k < t.len() ==> !is_ws(#[trigger] t[k]),
    ensures
        ws_tokens(t) == seq![t],
{
    let ws = |c: char| is_ws(c);
    lemma_run_until_at(t, ws, 0, t.len() as int);
    assert(t.subrange(0, t.len() as int) =~= t);
    assert(!is_ws(t[0]));
    assert(run_until(t, ws) == t.len());
    assert(t.take(t.len() as int) =~= t);
    let n = t.len() as int;
    assert(t.skip(n) =~= Seq::<char>::empty());
    assert(ws_tokens(t.skip(n)) =~= Seq::<Seq<char>>::empty());
    assert(ws_tokens(t) == seq![t.take(n)] + ws_tokens(t.skip(n)));
    assert(ws_tokens(t) =~= seq![t]);
}

/// Lines do not span the place where `a` and `b` meet when `a` is empty or
/// ends with a line break.
pub proof fn lemma_text_lines_concat(a: Seq<char>, b: Seq<char>)
    requires
        a.len() == 0 || a.last() == '\n',
    ensures
        text_lines(a + b) == text_lines(a) + text_lines(b),
    decreases a.len(),
{
    let nl = |c: char| c == '\n';
    if a.len() == 0 {
        assert(a + b =~= b);
        assert(text_lines(a) + text_lines(b) =~= text_lines(b));
    } else {
        let ab = a + b;
        lemma_run_until_bound(a, nl);
        let n = run_until(a, nl) as int;
        if n == a.len() {
            assert(nl(a[a.len() - 1]));
        }
        assert(n < a.len());
        lemma_run_until_concat(a, b, nl);
        assert(ab.take(n) =~= a.take(n));
        assert(ab.skip(n + 1) =~= a.skip(n + 1) + b);
        if n + 1 < a.len() {
            assert(a.skip(n + 1).last() == a.last());
        }
        lemma_text_lines_concat(a.skip(n + 1), b);
        assert(text_lines(ab) =~= text_lines(a) + text_lines(b));
    }
}

pub open spec fn strip_cr(l: Seq<char>) -> Seq<char> {
    if l.len() > 0 && l.last() == '\r' {
        l.drop_last()
    } else {
        l
    }
}

pub open spec fn trim_start(s: Seq<char>) -> Seq<char>
    decreases s.len(),
{
    if s.len() > 0 && is_ws(s[0]) {
        trim_start(s.drop_first())
    } else {
        s
    }
}

pub open spec fn trim_end(s: Seq<char>) -> Seq<char>
    decreases s.len(),
{
    if s.len() > 0 && is_ws(s.last()) {
        trim_end(s.drop_last())
    } else {
        s
    }
}

/// `str::trim`: leading and trailing whitespace removed.
pub open spec fn trim(s: Seq<char>) -> Seq<char> {
    trim_end(trim_start(s))
}

pub open spec fn is_digit(c: char) -> bool {
    48 <= c as u32 <= 57
}

pub open spec fn all_digits(s: Seq<char>) -> bool {
    forall|i: int| 0 <= i < s.len() ==> is_digit(#[trigger] s[i])
}

/// The value of a string of decimal digits.
pub open spec fn digits_value(s: Seq<char>) -> nat
    decreases s.len(),
{
    if s.len() == 0 {
        0
    } else {
        digits_value(s.drop_last()) * 10 + ((s.last() as u32) - 48) as nat
    }
}

/// `str::parse::<u64>`: an optional `'+'`, then at least one ASCII digit,
/// with a value that fits in 64 bits.
pub open spec fn parse_u64(t: Seq<char>) -> Option<u64> {
    let d = if t.len() > 1 && t[0] == '+' {
        t.drop_first()
    } else {
        t
    };
    if d.len() > 0 && all_digits(d) && digits_value(d) <= u64::MAX {
        Some(digits_value(d) as u64)
    } else {
        None
    }
}

/// The fields of `toks` that parse as `u64`, in order (a `filter_map` of `parse_u64`).
pub open spec fn numeric_fields(toks: Seq<Seq<char>>) -> Seq<u64>
    decreases toks.len(),
{
    if toks.len() == 0 {
        seq![]
    } else {
        match parse_u64(toks[0]) {
            Some(v) => seq![v] + numeric_fields(toks.drop_first()),
            None => numeric_fields(toks.drop_first()),
        }
    }
}

/// The numeric fields of two runs of fields are those of each, in order.
pub proof fn lemma_numeric_fields_concat(a: Seq<Seq<char>>, b: Seq<Seq<char>>)
    ensures
        numeric_fields(a + b) == numeric_fields(a) + numeric_fields(b),
    decreases a.len(),
{
    if a.len() == 0 {
        assert(a + b =~= b);
        assert(numeric_fields(a) + numeric_fields(b) =~= numeric_fields(b));
    } else {
        assert((a + b)[0] == a[0]);
        assert((a + b).drop_first() =~= a.drop_first() + b);
        lemma_numeric_fields_concat(a.drop_first(), b);
        assert(numeric_fields(a + b) =~= numeric_fields(a) + numeric_fields(b));
    }
}

pub open spec fn str_opt_view(s: Option<&str>) -> Option<Seq<char>> {
    match s {
        Some(x) => Some(x@),
        None => None,
    }
}

pub open spec fn string_opt_view(s: Option<String>) -> Option<Seq<char>> {
    match s {
        Some(x) => Some(x@),
        None => None,
    }
}

/// The characters of `cs` between `r.0` and `r.1`.
pub open spec fn span(cs: Seq<char>, r: (usize, usize)) -> Seq<char> {
    cs.subrange(r.0 as int, r.1 as int)
}

pub open spec fn spans(cs: Seq<char>, rs: Seq<(usize, usize)>) -> Seq<Seq<char>> {
    rs.map_values(|r: (usize, usize)| span(cs, r))
}

pub open spec fn spans_within(rs: Seq<(usize, usize)>, lo: int, hi: int) -> bool {
    forall|k: int| 0 <= k < rs.len() ==> lo <= (#[trigger] rs[k]).0 <= rs[k].1 <= hi
}

/// The characters of `s`, in order.
pub fn chars_of(s: &str) -> (v: Vec<char>)
    ensures
        v@ == s@,
{
    let mut v: Vec<char> = Vec::new();
    for c in it: s.chars()
        invariant
            v@ == it.seq().take(it.index() as int),
    {
        v.push(c);
    }
    v
}

/// Index of the first character at or after `from` (and before `hi`) that is
/// whitespace (when `ws` holds) or non-whitespace (when it does not); `hi` if none.
fn scan_ws(cs: &Vec<char>, from: usize, hi: usize, ws: bool) -> (j: usize)
    requires
        from <= hi <= cs.len(),
    ensures
        from <= j <= hi,
        forall|k: int| from <= k < j ==> is_ws(#[trigger] cs@[k]) != ws,
        j < hi ==> is_ws(cs@[j as int]) == ws,
{
    let mut j = from;
    while j < hi && is_whitespace(cs[j]) != ws
        invariant
            from <= j <= hi <= cs.len(),
            forall|k: int| from <= k < j ==> is_ws(#[trigger] cs@[k]) != ws,
        decreases hi - j,
    {
        j = j + 1;
    }
    j
}

/// The whitespace-separated fields of `cs[lo..hi]`, as index ranges into `cs`.
pub fn token_ranges(cs: &Vec<char>, lo: usize, hi: usize) -> (rs: Vec<(usize, usize)>)
    requires
        lo <= hi <= cs.len(),
    ensures
        spans(cs@, rs@) == ws_tokens(cs@.subrange(lo as int, hi as int)),
        spans_within(rs@, lo as int, hi as int),
{
    let ghost whole = cs@.subrange(lo as int, hi as int);
    let mut rs: Vec<(usize, usize)> = Vec::new();
    let mut i = lo;
    assert(whole =~= cs@.subrange(i as int, hi as int));
    while i < hi
        invariant
            lo <= i <= hi <= cs.len(),
            whole == cs@.subrange(lo as int, hi as int),
            ws_tokens(whole) == spans(cs@, rs@) + ws_tokens(cs@.subrange(i as int, hi as int)),
            spans_within(rs@, lo as int, hi as int),
        decreases hi - i,
    {
        let ghost rest = cs@.subrange(i as int, hi as int);
        if is_whitespace(cs[i]) {
            assert(rest.drop_first() =~= cs@.subrange(i + 1, hi as int));
            i = i + 1;
        } else {
            let j = scan_ws(cs, i, hi, true);
            let ghost sub = cs@.subrange(0, hi as int);
            proof {
                let stop = |c: char| is_ws(c);
                assert forall|k: int| i <= k < j implies !stop(#[trigger] sub[k]) by {
                    assert(sub[k] == cs@[k]);
                }
                if j < hi {
                    assert(sub[j as int] == cs@[j as int]);
                }
                lemma_run_until_at(sub, stop, i as int, j as int);
                assert(sub.subrange(i as int, sub.len() as int) =~= rest);
                assert(rest.take(j - i) =~= cs@.subrange(i as int, j as int));
                assert(rest.skip(j - i) =~= cs@.subrange(j as int, hi as int));
            }
            let ghost old_rs = rs@;
            rs.push((i, j));
            proof {
                assert(spans(cs@, rs@) =~= spans(cs@, old_rs) + seq![
                    cs@.subrange(i as int, j as int),
                ]);
            }
            i = j;
        }
    }
    proof {
        assert(cs@.subrange(i as int, hi as int) =~= Seq::<char>::empty());
        assert(spans(cs@, rs@) + seq![] =~= spans(cs@, rs@));
    }
    rs
}

/// Index of the first `c` at or after `from` and before `hi`; `hi` if none.
fn scan_char(cs: &Vec<char>, from: usize, hi: usize, c: char) -> (j: usize)
    requires
        from <= hi <= cs.len(),
    ensures
        from <= j <= hi,
        forall|k: int| from <= k < j ==> #[trigger] cs@[k] != c,
        j < hi ==> cs@[j as int] == c,
{
    let mut j = from;
    while j < hi && cs[j] != c
        invariant
            from <= j <= hi <= cs.len(),
            forall|k: int| from <= k < j ==> #[trigger] cs@[k] != c,
        decreases hi - j,
    {
        j = j + 1;
    }
    j
}

/// The first `c` in `cs[lo..hi]`, if any.
pub fn find_char(cs: &Vec<char>, lo: usize, hi: usize, c: char) -> (r: Option<usize>)
    requires
        lo <= hi <= cs.len(),
    ensures
        run_until(cs@.subrange(lo as int, hi as int), |x: char| x == c) < hi - lo <==> r is Some,
        r matches Some(j) ==> lo <= j < hi && j - lo == run_until(
            cs@.subrange(lo as int, hi as int),
            |x: char| x == c,
        ),
{
    let j = scan_char(cs, lo, hi, c);
    proof {
        let sub = cs@.subrange(0, hi as int);
        let stop = |x: char| x == c;
        assert forall|k: int| lo <= k < j implies !stop(#[trigger] sub[k]) by {
            assert(sub[k] == cs@[k]);
        }
        if j < hi {
            assert(sub[j as int] == cs@[j as int]);
        }
        lemma_run_until_at(sub, stop, lo as int, j as int);
        assert(sub.subrange(lo as int, sub.len() as int) =~= cs@.subrange(lo as int, hi as int));
    }
    if j < hi {
        Some(j)
    } else {
        None
    }
}

/// The lines of `cs`, as index ranges into `cs`.
pub fn line_ranges(cs: &Vec<char>) -> (rs: Vec<(usize, usize)>)
    ensures
        spans(cs@, rs@) == text_lines(cs@),
        spans_within(rs@, 0, cs.len() as int),
{
    let n = cs.len();
    let mut rs: Vec<(usize, usize)> = Vec::new();
    let mut i: usize = 0;
    assert(cs@ =~= cs@.subrange(0, n as int));
    while i < n
        invariant
            i <= n == cs.len(),
            text_lines(cs@) == spans(cs@, rs@) + text_lines(cs@.subrange(i as int, n as int)),
            spans_within(rs@, 0, n as int),
        decreases n - i,
    {
        let ghost rest = cs@.subrange(i as int, n as int);
        let j = scan_char(cs, i, n, '\n');
        proof {
            let stop = |x: char| x == '\n';
            assert forall|k: int| i <= k < j implies !stop(#[trigger] cs@[k]) by {}
            lemma_run_until_at(cs@, stop, i as int, j as int);
        }
        let ghost old_rs = rs@;
        if j < n {
            let end = if j > i && cs[j - 1] == '\r' {
                j - 1
            } else {
                j
            };
            rs.push((i, end));
            proof {
                let line = rest.take(j - i);
                if j > i && cs@[j - 1] == '\r' {
                    assert(line.last() == cs@[j - 1]);
                    assert(strip_cr(line) =~= cs@.subrange(i as int, end as int));
                } else {
                    assert(strip_cr(line) =~= cs@.subrange(i as int, end as int));
                }
                assert(rest.skip(j - i + 1) =~= cs@.subrange(j + 1, n as int));
                assert(spans(cs@, rs@) =~= spans(cs@, old_rs) + seq![
                    cs@.subrange(i as int, end as int),
                ]);
            }
            i = j + 1;
        } else {
            rs.push((i, n));
            proof {
                assert(spans(cs@, rs@) =~= spans(cs@, old_rs) + seq![rest]);
                assert(cs@.subrange(n as int, n as int) =~= Seq::<char>::empty());
            }
            i = n;
        }
    }
    proof {
        assert(cs@.subrange(i as int, n as int) =~= Seq::<char>::empty());
        assert(spans(cs@, rs@) + seq![] =~= spans(cs@, rs@));
    }
    rs
}

proof fn lemma_trim_start_at(cs: Seq<char>, lo: int, a: int, hi: int)
    requires
        0 <= lo <= a <= hi <= cs.len(),
        forall|k: int| lo <= k < a ==> is_ws(#[trigger] cs[k]),
        a == hi || !is_ws(cs[a]),
    ensures
        trim_start(cs.subrange(lo, hi)) == cs.subrange(a, hi),
    decreases a - lo,
{
    let t = cs.subrange(lo, hi);
    if lo < a {
        lemma_trim_start_at(cs, lo + 1, a, hi);
        assert(t.drop_first() =~= cs.subrange(lo + 1, hi));
        assert(t[0] == cs[lo]);
    } else if a < hi {
        assert(t[0] == cs[a]);
    }
}

proof fn lemma_trim_end_at(cs: Seq<char>, a: int, b: int, hi: int)
    requires
        0 <= a <= b <= hi <= cs.len(),
        forall|k: int| b <= k < hi ==> is_ws(#[trigger] cs[k]),
        b == a || !is_ws(cs[b - 1]),
    ensures
        trim_end(cs.subrange(a, hi)) == cs.subrange(a, b),
    decreases hi - b,
{
    let t = cs.subrange(a, hi);
    if b < hi {
        lemma_trim_end_at(cs, a, b, hi - 1);
        assert(t.drop_last() =~= cs.subrange(a, hi - 1));
        assert(t.last() == cs[hi - 1]);
    } else if a < b {
        assert(t.last() == cs[b - 1]);
    }
}

/// The range of `cs[lo..hi]` left after trimming whitespace at both ends.
pub fn trim_range(cs: &Vec<char>, lo: usize, hi: usize) -> (r: (usize, usize))
    requires
        lo <= hi <= cs.len(),
    ensures
        lo <= r.0 <= r.1 <= hi,
        span(cs@, r) == trim(cs@.subrange(lo as int, hi as int)),
{
    let a = scan_ws(cs, lo, hi, false);
    let mut b = hi;
    while b > a && is_whitespace(cs[b - 1])
        invariant
            lo <= a <= b <= hi <= cs.len(),
            forall|k: int| b <= k < hi ==> is_ws(#[trigger] cs@[k]),
        decreases b,
    {
        b = b - 1;
    }
    proof {
        lemma_trim_start_at(cs@, lo as int, a as int, hi as int);
        lemma_trim_end_at(cs@, a as int, b as int, hi as int);
    }
    (a, b)
}

proof fn lemma_digits_prefix_le(d: Seq<char>, m: int)
    requires
        0 <= m <= d.len(),
    ensures
        digits_value(d.take(m)) <= digits_value(d),
    decreases d.len() - m,
{
    if m < d.len() {
        lemma_digits_prefix_le(d, m + 1);
        assert(d.take(m + 1).drop_last() =~= d.take(m));
    } else {
        assert(d.take(m) =~= d);
    }
}

/// `cs[a..b]` parsed as a `u64` the way `str::parse::<u64>` parses it.
pub fn parse_u64_span(cs: &Vec<char>, a: usize, b: usize) -> (r: Option<u64>)
    requires
        a <= b <= cs.len(),
    ensures
        r == parse_u64(cs@.subrange(a as int, b as int)),
{
    let ghost t = cs@.subrange(a as int, b as int);
    let s = if b - a > 1 && cs[a] == '+' {
        a + 1
    } else {
        a
    };
    let ghost d = cs@.subrange(s as int, b as int);
    proof {
        if b - a > 1 && cs@[a as int] == '+' {
            assert(t[0] == cs@[a as int]);
            assert(t.drop_first() =~= d);
        } else {
            assert(t =~= d);
        }
    }
    if s == b {
        return None;
    }
    let ghost outcome = if all_digits(d) && digits_value(d) <= u64::MAX {
        Some(digits_value(d) as u64)
    } else {
        None
    };
    assert(parse_u64(t) == outcome);
    let mut acc: u64 = 0;
    let mut k = s;
    assert(cs@.subrange(s as int, s as int) =~= Seq::<char>::empty());
    while k < b
        invariant
            s <= k <= b <= cs.len(),
            d == cs@.subrange(s as int, b as int),
            parse_u64(cs@.subrange(a as int, b as int)) == outcome,
            outcome == (if all_digits(d) && digits_value(d) <= u64::MAX {
                Some(digits_value(d) as u64)
            } else {
                None
            }),
            acc == digits_value(cs@.subrange(s as int, k as int)),
            all_digits(cs@.subrange(s as int, k as int)),
        decreases b - k,
    {
        let c = cs[k];
        let u = c as u32;
        let ghost next = cs@.subrange(s as int, k + 1);
        proof {
            assert(next.drop_last() =~= cs@.subrange(s as int, k as int));
            assert(next.last() == c);
            assert(d[k - s] == c);
        }
        if u < 48 || u > 57 {
            assert(!is_digit(d[k - s]));
            return None;
        }
        let digit = (u - 48) as u64;
        let stepped = match acc.checked_mul(10) {
            Some(m) => m.checked_add(digit),
            None => None,
        };
        match stepped {
            Some(v) => {
                acc = v;
                assert forall|i: int| 0 <= i < next.len() implies is_digit(#[trigger] next[i]) by {
                    if i < next.len() - 1 {
                        assert(next[i] == cs@.subrange(s as int, k as int)[i]);
                    }
                }
            },
            None => {
                proof {
                    assert(d.take(k + 1 - s) =~= next);
                    if all_digits(d) {
                        lemma_digits_prefix_le(d, k + 1 - s);
                    }
                }
                return None;
            },
        }
        k = k + 1;
    }
    assert(cs@.subrange(s as int, k as int) =~= d);
    Some(acc)
}

/// The fields among `cs`-spans `rs[from..]` that parse as `u64`, in order.
pub fn numeric_values(cs: &Vec<char>, rs: &Vec<(usize, usize)>, from: usize) -> (out: Vec<u64>)
    requires
        from <= rs.len(),
        spans_within(rs@, 0, cs.len() as int),
    ensures
        out@ == numeric_fields(spans(cs@, rs@).subrange(from as int, rs.len() as int)),
{
    let ghost all = spans(cs@, rs@);
    let n = rs.len();
    let mut out: Vec<u64> = Vec::new();
    let mut k = from;
    while k < n
        invariant
            from <= k <= n == rs.len(),
            all == spans(cs@, rs@),
            spans_within(rs@, 0, cs.len() as int),
            numeric_fields(all.subrange(from as int, n as int)) == out@ + numeric_fields(
                all.subrange(k as int, n as int),
            ),
        decreases n - k,
    {
        let ghost rest = all.subrange(k as int, n as int);
        let (a, b) = rs[k];
        assert(rs@[k as int] == (a, b));
        let v = parse_u64_span(cs, a, b);
        proof {
            assert(rest[0] == cs@.subrange(a as int, b as int));
            assert(rest.drop_first() =~= all.subrange(k + 1, n as int));
        }
        match v {
            Some(x) => {
                let ghost old_out = out@;
                out.push(x);
                assert(out@ =~= old_out + seq![x]);
                assert(old_out + (seq![x] + numeric_fields(rest.drop_first())) =~= out@
                    + numeric_fields(rest.drop_first()));
            },
            None => {},
        }
        k = k + 1;
    }
    proof {
        assert(all.subrange(k as int, n as int) =~= Seq::<Seq<char>>::empty());
        assert(out@ + seq![] =~= out@);
    }
    out
}

/// Whether `a` and `b` hold the same characters.
pub fn str_equal(a: &str, b: &str) -> (r: bool)
    ensures
        r == (a@ == b@),
{
    let x = chars_of(a);
    let y = chars_of(b);
    if x.len() != y.len() {
        return false;
    }
    let mut i: usize = 0;
    while i < x.len()
        invariant
            x.len() == y.len(),
            i <= x.len(),
            x@ == a@,
            y@ == b@,
            forall|k: int| 0 <= k < i ==> x@[k] == y@[k],
        decreases x.len() - i,
    {
        if x[i] != y[i] {
            return false;
        }
        i = i + 1;
    }
    assert(x@ =~= y@);
    true
}

/// `s` with leading and trailing whitespace removed, as an owned string.
pub fn trimmed(s: &str) -> (r: String)
    ensures
        r@ == trim(s@),
{
    let cs = chars_of(s);
    let (a, b) = trim_range(&cs, 0, cs.len());
    assert(cs@.subrange(0, cs.len() as int) =~= s@);
    String::from_str(s.substring_char(a, b))
}

/// `s.trim().parse::<u64>()`, as a sysfs attribute file is read.
pub fn parse_trimmed_u64(s: &str) -> (r: Option<u64>)
    ensures
        r == parse_u64(trim(s@)),
{
    let cs = chars_of(s);
    let (a, b) = trim_range(&cs, 0, cs.len());
    assert(cs@.subrange(0, cs.len() as int) =~= s@);
    parse_u64_span(&cs, a, b)
}

/// Whether `s` begins with `prefix`.
pub fn starts_with(s: &str, prefix: &str) -> (r: bool)
    ensures
        r == (prefix@.len() <= s@.len() && s@.take(prefix@.len() as int) == prefix@),
{
    let x = chars_of(s);
    let p = chars_of(prefix);
    if p.len() > x.len() {
        return false;
    }
    let mut i: usize = 0;
    while i < p.len()
        invariant
            p.len() <= x.len(),
            i <= p.len(),
            x@ == s@,
            p@ == prefix@,
            forall|k: int| 0 <= k < i ==> x@[k] == p@[k],
        decreases p.len() - i,
    {
        if x[i] != p[i] {
            assert(s@.take(prefix@.len() as int)[i as int] != prefix@[i as int]);
            return false;
        }
        i = i + 1;
    }
    assert(s@.take(prefix@.len() as int) =~= prefix@);
    true
}

pub open spec fn digit_char(d: nat) -> char {
    seq!['0', '1', '2', '3', '4', '5', '6', '7', '8', '9'][d as int]
}

/// The decimal digits of `n`, most significant first, without leading zeros.
pub open spec fn decimal(n: nat) -> Seq<char>
    decreases n,
{
    if n < 10 {
        seq![digit_char(n)]
    } else {
        decimal(n / 10).push(digit_char(n % 10))
    }
}

fn digit_str(d: u32) -> (s: &'static str)
    requires
        d < 10,
    ensures
        s@ == seq![digit_char(d as nat)],
{
    proof {
        reveal_strlit("0");
        reveal_strlit("1");
        reveal_strlit("2");
        reveal_strlit("3");
        reveal_strlit("4");
        reveal_strlit("5");
        reveal_strlit("6");
        reveal_strlit("7");
        reveal_strlit("8");
        reveal_strlit("9");
    }
    if d == 0 {
        "0"
    } else if d == 1 {
        "1"
    } else if d == 2 {
        "2"
    } else if d == 3 {
        "3"
    } else if d == 4 {
        "4"
    } else if d == 5 {
        "5"
    } else if d == 6 {
        "6"
    } else if d == 7 {
        "7"
    } else if d == 8 {
        "8"
    } else {
        "9"
    }
}

/// `n` written in decimal.
pub fn decimal_string(n: u32) -> (s: String)
    ensures
        s@ == decimal(n as nat),
    decreases n,
{
    if n < 10 {
        String::from_str(digit_str(n))
    } else {
        let mut s = decimal_string(n / 10);
        s.append(digit_str(n % 10));
        s
    }
}

/// Every `u64`, written in decimal, parses back as itself: the parser reads
/// the whole 64-bit range, not a narrower one.
pub proof fn law_parse_u64_reads_decimal(n: u64)
    ensures
        parse_u64(decimal(n as nat)) == Some(n),
{
    lemma_decimal_digits(n as nat);
    let d = decimal(n as nat);
    assert(48 <= d[0] as u32 <= 57);
}

proof fn lemma_decimal_digits(n: nat)
    ensures
        decimal(n).len() > 0,
        all_digits(decimal(n)),
        digits_value(decimal(n)) == n,
    decreases n,
{
    let digits = seq!['0', '1', '2', '3', '4', '5', '6', '7', '8', '9'];
    assert(forall|k: int|
        0 <= k < 10 ==> 48 <= (#[trigger] digits[k]) as u32 <= 57 && digits[k] as u32 - 48 == k) by {
        assert(digits[0] == '0' && digits[1] == '1' && digits[2] == '2' && digits[3] == '3');
        assert(digits[4] == '4' && digits[5] == '5' && digits[6] == '6' && digits[7] == '7');
        assert(digits[8] == '8' && digits[9] == '9');
    }
    let last = digit_char(n % 10);
    assert(last == digits[(n % 10) as int]);
    if n < 10 {
        let d = decimal(n);
        assert(d == seq![last]);
        assert(d.drop_last() =~= Seq::<char>::empty());
        assert(digits_value(d.drop_last()) == 0);
        assert(last as u32 - 48 == n % 10);
        assert(digits_value(d) == digits_value(d.drop_last()) * 10 + ((d.last() as u32) - 48) as nat);
    } else {
        lemma_decimal_digits(n / 10);
        let d = decimal(n);
        assert(d == decimal(n / 10).push(last));
        assert(d.drop_last() =~= decimal(n / 10));
        assert(d.last() == last);
        assert(last as u32 - 48 == n % 10);
        assert(digits_value(d) == digits_value(d.drop_last()) * 10 + ((d.last() as u32) - 48) as nat);
        assert(n == (n / 10) * 10 + n % 10);
        assert forall|i: int| 0 <= i < d.len() implies is_digit(#[trigger] d[i]) by {
            if i < d.len() - 1 {
                assert(d[i] == decimal(n / 10)[i]);
            }
        }
    }
}

} // verus!
